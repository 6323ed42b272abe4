use clap::{App, Arg};
use monster::cli::{
    check_memory_size, expect_arg, is, is_ratio, is_valid_memory_size, no_variant, ratio_in_range,
    ArgError, LogLevel, Readable,
};
use monster::engine::rarity_simulation::{defaults as rarity_defaults, MeanType};
use monster::engine::symbolic_execution::defaults as symbolic_defaults;
use monster::path_exploration::ExplorationStrategyType;
use monster::solver::SolverType;

fn execute_args<'a>(memory: &'a str, depth: &'a str) -> App<'a, 'a> {
    App::new("Monster").subcommand(
        App::new("execute")
            .arg(Arg::with_name("input-file").takes_value(true).value_name("FILE").required(true))
            .arg(
                Arg::with_name("solver")
                    .short("s")
                    .long("solver")
                    .takes_value(true)
                    .default_value(SolverType::Monster.name()),
            )
            .arg(
                Arg::with_name("max-execution-depth")
                    .short("d")
                    .long("execution-depth")
                    .takes_value(true)
                    .default_value(depth)
                    .validator(is::<u64>),
            )
            .arg(
                Arg::with_name("memory")
                    .short("m")
                    .long("memory")
                    .takes_value(true)
                    .default_value(memory)
                    .validator(is_valid_memory_size),
            ),
    )
}

fn ratio(text: &str) -> Result<(), String> {
    is_ratio(text.parse::<f64>().map(f64::to_bits).map_err(|err| err.to_string()))
}

#[test]
fn test_execute_defaults_are_set() {
    let memory = format!("{}", symbolic_defaults::MEMORY_SIZE / symbolic_defaults::MIB);
    let depth = format!("{}", symbolic_defaults::MAX_EXECUTION_DEPTH);
    let matches = execute_args(&memory, &depth).get_matches_from(vec!["monster", "execute", "file.o"]);
    let m = matches.subcommand_matches("execute").unwrap();

    assert!(m.is_present("memory"), "Default memory size is set");
    assert!(m.is_present("max-execution-depth"), "Default execution depth is set");
    assert!(m.is_present("solver"), "Default solver is set");
}

#[test]
fn test_execute_memory_size_argument() {
    assert!(
        execute_args("1", "1")
            .get_matches_from_safe(vec!["monster", "execute", "-m", "0", "file.o"])
            .is_err(),
        "Memory size 0 is invalid"
    );

    assert!(
        execute_args("1", "1")
            .get_matches_from_safe(vec!["monster", "execute", "-m", "-23424", "file.o"])
            .is_err(),
        "Negative memory size is invalid"
    );

    assert!(
        execute_args("1", "1")
            .get_matches_from_safe(vec!["monster", "execute", "-m", "23424", "file.o"])
            .is_err(),
        "memory size is invalid (out of range)"
    );
}

#[test]
fn execute_accepts_memory_sizes_within_the_limits() {
    for size in ["1", "16", "1024"] {
        let matches = execute_args("1", "1")
            .get_matches_from_safe(vec!["monster", "execute", "-m", size, "file.o"])
            .unwrap();
        let m = matches.subcommand_matches("execute").unwrap();
        assert_eq!(expect_arg::<u64>(m.value_of("memory"), "memory").unwrap(), size.parse().unwrap());
    }
}

#[test]
fn memory_size_zero_negative_and_too_large_are_rejected() {
    assert!(is_valid_memory_size("0".to_string()).is_err());
    assert!(is_valid_memory_size("-1".to_string()).is_err());
    assert!(is_valid_memory_size("2048".to_string()).is_err());
    assert!(is_valid_memory_size("1025".to_string()).is_err());
    assert!(is_valid_memory_size("-23424".to_string()).is_err());
    assert!(is_valid_memory_size("23424".to_string()).is_err());
}

#[test]
fn memory_size_limits_are_accepted() {
    assert_eq!(is_valid_memory_size("1".to_string()), Ok(()));
    assert_eq!(is_valid_memory_size("1024".to_string()), Ok(()));
    assert_eq!(is_valid_memory_size("512".to_string()), Ok(()));
    assert_eq!(is_valid_memory_size("+7".to_string()), Ok(()));
    assert_eq!(is_valid_memory_size("0016".to_string()), Ok(()));
}

#[test]
fn memory_size_out_of_range_is_named_in_the_complaint() {
    assert_eq!(
        is_valid_memory_size("0".to_string()),
        Err("memory size has to be in range: 1 - 1024".to_string())
    );
    assert_eq!(
        is_valid_memory_size("1025".to_string()),
        Err("memory size has to be in range: 1 - 1024".to_string())
    );
}

#[test]
fn memory_size_that_is_no_number_is_rejected() {
    for text in ["", "+", "abc", "12 ", " 12", "1_0", "0x10", "1.5", "99999999999999999999999"] {
        assert!(is_valid_memory_size(text.to_string()).is_err(), "{:?}", text);
        assert_eq!(
            is_valid_memory_size(text.to_string()),
            Err(text.parse::<u64>().unwrap_err().to_string())
        );
    }
}

#[test]
fn is_accepts_what_reads_as_a_number() {
    assert_eq!(is::<u64>("0".to_string()), Ok(()));
    assert_eq!(is::<u64>("18446744073709551615".to_string()), Ok(()));
    assert_eq!(is::<u64>("+42".to_string()), Ok(()));
    assert_eq!(is::<usize>("3000".to_string()), Ok(()));
    assert!(is::<u64>("18446744073709551616".to_string()).is_err());
    assert!(is::<u64>("-1".to_string()).is_err());
    assert!(is::<u64>("".to_string()).is_err());
    assert!(is::<usize>("fifty".to_string()).is_err());
    assert!(is::<usize>("-5".to_string()).is_err());
}

#[test]
fn read_gives_the_value_of_the_numeral() {
    assert_eq!(u64::read("1048576"), Ok(1_048_576));
    assert_eq!(u64::read("007"), Ok(7));
    assert_eq!(usize::read("+50"), Ok(50));
    assert!(u64::read("5 0").is_err());
}

#[test]
fn ratio_limits_are_accepted() {
    assert_eq!(ratio("0.0"), Ok(()));
    assert_eq!(ratio("1.0"), Ok(()));
    assert_eq!(ratio("0"), Ok(()));
    assert_eq!(ratio("1"), Ok(()));
    assert_eq!(ratio("0.6"), Ok(()));
    assert_eq!(ratio("-0.0"), Ok(()));
    assert_eq!(ratio("1e-320"), Ok(()));
    assert_eq!(ratio("0.9999999999999999"), Ok(()));
}

#[test]
fn ratio_outside_the_unit_interval_is_rejected() {
    for text in ["1.0000000000000002", "1.5", "2", "-0.1", "-1", "-1e-320", "inf", "-inf", "NaN", "1e308"] {
        assert_eq!(
            ratio(text),
            Err("Expected range between 0.0 and 1.0".to_string()),
            "{:?}",
            text
        );
    }
}

#[test]
fn ratio_that_is_no_number_keeps_the_reason() {
    assert_eq!(ratio("half"), Err("half".parse::<f64>().unwrap_err().to_string()));
    assert_eq!(ratio(""), Err("".parse::<f64>().unwrap_err().to_string()));
    assert_eq!(is_ratio(Err("no number".to_string())), Err("no number".to_string()));
}

#[test]
fn ratio_in_range_agrees_with_the_comparison_of_floats() {
    let samples = [
        0.0_f64,
        -0.0,
        1.0,
        0.5,
        0.6,
        f64::MIN_POSITIVE,
        5e-324,
        -5e-324,
        1.0 + f64::EPSILON,
        1.0 - f64::EPSILON / 2.0,
        2.0,
        -1.0,
        f64::MAX,
        f64::MIN,
        f64::INFINITY,
        f64::NEG_INFINITY,
        f64::NAN,
        -f64::NAN,
    ];
    for sample in samples {
        assert_eq!(ratio_in_range(sample.to_bits()), (0.0..=1.0).contains(&sample), "{}", sample);
    }
}

#[test]
fn default_ratio_is_six_tenths() {
    assert_eq!(f64::from_bits(rarity_defaults::COPY_INIT_RATIO), 0.6);
    assert!(ratio_in_range(rarity_defaults::COPY_INIT_RATIO));
}

#[test]
fn defaults_pass_their_validators() {
    let memory = symbolic_defaults::MEMORY_SIZE / symbolic_defaults::MIB;
    assert_eq!(is_valid_memory_size(memory.to_string()), Ok(()));
    let memory = rarity_defaults::MEMORY_SIZE / rarity_defaults::MIB;
    assert_eq!(is_valid_memory_size(memory.to_string()), Ok(()));
    assert_eq!(is::<u64>(symbolic_defaults::MAX_EXECUTION_DEPTH.to_string()), Ok(()));
    assert_eq!(is::<u64>(rarity_defaults::STEP_SIZE.to_string()), Ok(()));
    assert_eq!(is::<usize>(rarity_defaults::AMOUNT_OF_STATES.to_string()), Ok(()));
    assert_eq!(is::<usize>(rarity_defaults::SELECTION.to_string()), Ok(()));
    assert_eq!(is::<u64>(rarity_defaults::ITERATIONS.to_string()), Ok(()));
    assert_eq!(rarity_defaults::mean_type(), MeanType::Harmonic);
}

#[test]
fn expect_arg_reads_the_value() {
    assert_eq!(expect_arg::<u64>(Some("1000"), "max-execution-depth").unwrap(), 1000);
    assert_eq!(expect_arg::<usize>(Some("50"), "selection").unwrap(), 50);
}

#[test]
fn expect_arg_without_a_value_names_the_argument() {
    match expect_arg::<u64>(None, "memory") {
        Err(err) => {
            assert!(matches!(&err, ArgError::Unset { arg } if arg == "memory"));
            assert_eq!(err.message(), "argument \"memory\" has to be set in CLI at all times");
        },
        Ok(_) => panic!("a value came from nothing"),
    }
}

#[test]
fn expect_arg_with_a_wrong_value_keeps_the_cause() {
    match expect_arg::<u64>(Some("many"), "states") {
        Err(err) => {
            assert!(matches!(
                &err,
                ArgError::WrongFormat { arg, cause }
                    if arg == "states" && *cause == "many".parse::<u64>().unwrap_err().to_string()
            ));
            assert_eq!(err.message(), "argument \"states\" has wrong format");
        },
        Ok(_) => panic!("a value came from text that is no number"),
    }
}

#[test]
fn expect_arg_reads_the_choices_by_their_names() {
    assert_eq!(expect_arg::<SolverType>(Some("external"), "solver").unwrap(), SolverType::External);
    assert_eq!(expect_arg::<SolverType>(Some("monster"), "solver").unwrap(), SolverType::Monster);
    assert_eq!(
        expect_arg::<ExplorationStrategyType>(Some("shortest-paths"), "strategy").unwrap(),
        ExplorationStrategyType::ShortestPaths
    );
    assert_eq!(
        expect_arg::<ExplorationStrategyType>(Some("coin-flip"), "strategy").unwrap(),
        ExplorationStrategyType::CoinFlip
    );
    assert_eq!(expect_arg::<MeanType>(Some("arithmetic"), "mean").unwrap(), MeanType::Arithmetic);
    assert_eq!(expect_arg::<MeanType>(Some("harmonic"), "mean").unwrap(), MeanType::Harmonic);
    assert_eq!(expect_arg::<LogLevel>(Some("debug"), "verbose").unwrap(), LogLevel::Debug);
    for name in LogLevel::variants() {
        assert_eq!(LogLevel::read(name).unwrap().name(), name);
    }
}

#[test]
fn expect_arg_says_of_a_name_that_is_none_that_no_variant_matches() {
    match expect_arg::<SolverType>(Some("z3"), "solver") {
        Err(err) => {
            assert!(matches!(
                &err,
                ArgError::WrongFormat { arg, cause }
                    if arg == "solver" && cause == "Matching variant not found"
            ));
            assert_eq!(err.message(), "argument \"solver\" has wrong format");
        },
        Ok(_) => panic!("a backend came from a name that is none"),
    }
    assert_eq!(MeanType::read("Harmonic"), Err("Matching variant not found".to_string()));
    assert_eq!(LogLevel::read(""), Err("Matching variant not found".to_string()));
    assert_eq!(
        ExplorationStrategyType::read("shortest_paths"),
        Err("Matching variant not found".to_string())
    );
    assert_eq!(is::<LogLevel>("warn".to_string()), Ok(()));
    assert_eq!(is::<LogLevel>("loud".to_string()), Err("Matching variant not found".to_string()));
    assert_eq!(no_variant(), "Matching variant not found");
}

#[test]
fn is_hands_on_what_reading_says() {
    for text in ["", "-1", "abc", "18446744073709551616", "1 2"] {
        assert_eq!(
            is::<u64>(text.to_string()),
            Err(text.parse::<u64>().unwrap_err().to_string()),
            "{:?}",
            text
        );
        assert_eq!(
            is::<usize>(text.to_string()),
            Err(text.parse::<usize>().unwrap_err().to_string()),
            "{:?}",
            text
        );
        assert_eq!(u64::read(text), Err(text.parse::<u64>().unwrap_err().to_string()));
    }
    assert_eq!(is::<u64>("".to_string()), Err("cannot parse integer from empty string".to_string()));
    assert_eq!(is::<u64>("-1".to_string()), Err("invalid digit found in string".to_string()));
}

#[test]
fn check_memory_size_accepts_one_to_1024() {
    assert_eq!(check_memory_size(1), Ok(()));
    assert_eq!(check_memory_size(1024), Ok(()));
    for size in [0, 1025, 2048, u64::MAX] {
        assert_eq!(
            check_memory_size(size),
            Err("memory size has to be in range: 1 - 1024".to_string())
        );
    }
}

#[test]
fn log_levels_have_kebab_case_names() {
    assert_eq!(LogLevel::variants(), vec!["trace", "debug", "info", "warn", "error"]);
    assert_eq!(LogLevel::Info.name(), "info");
    for name in LogLevel::variants() {
        assert_eq!(LogLevel::from_name(name).unwrap().name(), name);
    }
    assert_eq!(LogLevel::from_name("warn"), Some(LogLevel::Warn));
    assert_eq!(LogLevel::from_name("Warn"), None);
    assert_eq!(LogLevel::from_name("verbose"), None);
    assert_eq!(LogLevel::from_name(""), None);
}

#[test]
fn choices_have_kebab_case_names() {
    assert_eq!(SolverType::variants(), vec!["monster", "external"]);
    assert_eq!(SolverType::from_name("external"), Some(SolverType::External));
    assert_eq!(SolverType::from_name("z3"), None);
    assert_eq!(ExplorationStrategyType::variants(), vec!["shortest-paths", "coin-flip"]);
    assert_eq!(
        ExplorationStrategyType::from_name("coin-flip"),
        Some(ExplorationStrategyType::CoinFlip)
    );
    assert_eq!(ExplorationStrategyType::from_name("shortest_paths"), None);
    assert_eq!(MeanType::variants(), vec!["arithmetic", "harmonic"]);
    assert_eq!(MeanType::from_name("harmonic"), Some(MeanType::Harmonic));
    assert_eq!(MeanType::from_name("geometric"), None);
}
