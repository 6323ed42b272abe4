//! Validation of the values that configure the engines.

use vstd::arithmetic::power2::{
    lemma2_to64, lemma2_to64_rest, lemma_pow2_adds, lemma_pow2_pos, lemma_pow2_strictly_increases,
    pow2,
};
use vstd::prelude::*;
use crate::numeral::{
    is_numeral, numeral_value, parse_u64, parse_usize, reads_as, u64_complaint, usize_complaint,
};
use crate::text::text_eq;

verus! {

/// How much the engines report while they run.
#[derive(Debug, PartialEq, Eq, Structural, Clone, Copy)]
pub enum LogLevel {
    Trace,
    Debug,
    Info,
    Warn,
    Error,
}

impl LogLevel {
    /// The name of a level on the command line.
    pub open spec fn name_of(self) -> Seq<char> {
        match self {
            LogLevel::Trace => "trace"@,
            LogLevel::Debug => "debug"@,
            LogLevel::Info => "info"@,
            LogLevel::Warn => "warn"@,
            LogLevel::Error => "error"@,
        }
    }

    pub fn name(&self) -> (r: &'static str)
        ensures
            r@ == self.name_of(),
    {
        match self {
            LogLevel::Trace => "trace",
            LogLevel::Debug => "debug",
            LogLevel::Info => "info",
            LogLevel::Warn => "warn",
            LogLevel::Error => "error",
        }
    }

    /// The level that `text` names, if it names one.
    pub fn from_name(text: &str) -> (r: Option<LogLevel>)
        ensures
            r matches Some(level) ==> level.name_of() == text@,
            r is None ==> forall|level: LogLevel| level.name_of() != text@,
    {
        if text_eq(text, "trace") {
            Some(LogLevel::Trace)
        } else if text_eq(text, "debug") {
            Some(LogLevel::Debug)
        } else if text_eq(text, "info") {
            Some(LogLevel::Info)
        } else if text_eq(text, "warn") {
            Some(LogLevel::Warn)
        } else if text_eq(text, "error") {
            Some(LogLevel::Error)
        } else {
            None
        }
    }

    /// The names of all levels.
    pub fn variants() -> (r: Vec<&'static str>)
        ensures
            r@.len() == 5,
            r@[0]@ == LogLevel::Trace.name_of(),
            r@[1]@ == LogLevel::Debug.name_of(),
            r@[2]@ == LogLevel::Info.name_of(),
            r@[3]@ == LogLevel::Warn.name_of(),
            r@[4]@ == LogLevel::Error.name_of(),
    {
        let mut names: Vec<&'static str> = Vec::new();
        names.push(LogLevel::Trace.name());
        names.push(LogLevel::Debug.name());
        names.push(LogLevel::Info.name());
        names.push(LogLevel::Warn.name());
        names.push(LogLevel::Error.name());
        names
    }

    /// No two levels share a name.
    pub proof fn lemma_names_distinct(a: LogLevel, b: LogLevel)
        requires
            a.name_of() == b.name_of(),
        ensures
            a == b,
    {
        reveal_strlit("trace");
        reveal_strlit("debug");
        reveal_strlit("info");
        reveal_strlit("warn");
        reveal_strlit("error");
        assert("trace"@[0] == 't' && "debug"@[0] == 'd' && "info"@[0] == 'i' && "warn"@[0] == 'w'
            && "error"@[0] == 'e');
    }
}

/// A kind of value that an argument can be read as.
pub trait Readable: Sized {
    /// The value that `text` stands for, if it stands for one.
    spec fn read_spec(text: Seq<char>) -> Option<Self>;

    /// What is said of `text` where it stands for no value.
    spec fn complaint_spec(text: Seq<char>) -> Seq<char>;

    /// Reads a value. Text that stands for none gives the reason in words.
    fn read(text: &str) -> (r: Result<Self, String>)
        ensures
            r matches Ok(value) ==> Self::read_spec(text@) == Some(value),
            r is Err ==> Self::read_spec(text@) is None,
            r matches Err(complaint) ==> complaint@ == Self::complaint_spec(text@),
    ;
}

impl Readable for u64 {
    open spec fn read_spec(text: Seq<char>) -> Option<u64> {
        match reads_as(text, u64::MAX as nat) {
            Some(n) => Some(n as u64),
            None => None,
        }
    }

    open spec fn complaint_spec(text: Seq<char>) -> Seq<char> {
        u64_complaint(text)
    }

    fn read(text: &str) -> (r: Result<u64, String>) {
        parse_u64(text)
    }
}

impl Readable for usize {
    open spec fn read_spec(text: Seq<char>) -> Option<usize> {
        match reads_as(text, usize::MAX as nat) {
            Some(n) => Some(n as usize),
            None => None,
        }
    }

    open spec fn complaint_spec(text: Seq<char>) -> Seq<char> {
        usize_complaint(text)
    }

    fn read(text: &str) -> (r: Result<usize, String>) {
        parse_usize(text)
    }
}

/// What is said of text that names none of the choices there are.
pub open spec fn no_variant_complaint() -> Seq<char> {
    "Matching variant not found"@
}

/// What is said of text that names none of the choices there are.
pub fn no_variant() -> (r: String)
    ensures
        r@ == no_variant_complaint(),
{
    String::from_str("Matching variant not found")
}

impl Readable for LogLevel {
    open spec fn read_spec(text: Seq<char>) -> Option<LogLevel> {
        if text == LogLevel::Trace.name_of() {
            Some(LogLevel::Trace)
        } else if text == LogLevel::Debug.name_of() {
            Some(LogLevel::Debug)
        } else if text == LogLevel::Info.name_of() {
            Some(LogLevel::Info)
        } else if text == LogLevel::Warn.name_of() {
            Some(LogLevel::Warn)
        } else if text == LogLevel::Error.name_of() {
            Some(LogLevel::Error)
        } else {
            None
        }
    }

    open spec fn complaint_spec(text: Seq<char>) -> Seq<char> {
        no_variant_complaint()
    }

    fn read(text: &str) -> (r: Result<LogLevel, String>) {
        match LogLevel::from_name(text) {
            Some(level) => {
                proof {
                    let found = LogLevel::read_spec(text@);
                    assert(found is Some);
                    LogLevel::lemma_names_distinct(found->0, level);
                }
                Ok(level)
            },
            None => {
                assert(LogLevel::Trace.name_of() != text@ && LogLevel::Debug.name_of() != text@
                    && LogLevel::Info.name_of() != text@ && LogLevel::Warn.name_of() != text@
                    && LogLevel::Error.name_of() != text@);
                Err(no_variant())
            },
        }
    }
}

/// Why an argument could not be had.
#[derive(Debug)]
pub enum ArgError {
    /// The argument was given no value.
    Unset { arg: String },
    /// The value of the argument does not read as what is asked for.
    WrongFormat { arg: String, cause: String },
}

impl ArgError {
    /// The error in words.
    pub open spec fn message_of(self) -> Seq<char> {
        match self {
            ArgError::Unset { arg } => "argument \""@ + arg@ + "\" has to be set in CLI at all times"@,
            ArgError::WrongFormat { arg, cause } => "argument \""@ + arg@ + "\" has wrong format"@,
        }
    }

    pub fn message(&self) -> (r: String)
        ensures
            r@ == self.message_of(),
    {
        let mut text = String::from_str("argument \"");
        match self {
            ArgError::Unset { arg } => {
                text.append(arg.as_str());
                text.append("\" has to be set in CLI at all times");
            },
            ArgError::WrongFormat { arg, cause } => {
                text.append(arg.as_str());
                text.append("\" has wrong format");
            },
        }
        text
    }
}

/// The value of the argument `arg`, read from what the command line holds for
/// it.
pub fn expect_arg<T: Readable>(value: Option<&str>, arg: &str) -> (r: Result<T, ArgError>)
    ensures
        match value {
            None => r matches Err(ArgError::Unset { arg: a }) && a@ == arg@,
            Some(text) => match T::read_spec(text@) {
                Some(v) => r == Ok::<T, ArgError>(v),
                None => r matches Err(ArgError::WrongFormat { arg: a, cause }) && a@ == arg@
                    && cause@ == T::complaint_spec(text@),
            },
        },
{
    match value {
        None => Err(ArgError::Unset { arg: String::from_str(arg) }),
        Some(text) => match T::read(text) {
            Ok(v) => Ok(v),
            Err(cause) => Err(ArgError::WrongFormat { arg: String::from_str(arg), cause }),
        },
    }
}

/// Accepts the text that reads as a `T`, and says of other text what reading
/// it says.
pub fn is<T: Readable>(v: String) -> (r: Result<(), String>)
    ensures
        r is Ok <==> T::read_spec(v@) is Some,
        r matches Err(complaint) ==> complaint@ == T::complaint_spec(v@),
{
    match T::read(v.as_str()) {
        Ok(_) => Ok(()),
        Err(cause) => Err(cause),
    }
}

/// The least number of mebibytes of memory that an engine can be given.
pub const MIN_MEMORY_SIZE: u64 = 1;

/// The greatest number of mebibytes of memory that an engine can be given.
pub const MAX_MEMORY_SIZE: u64 = 1024;

/// Whether `text` gives an amount of memory that an engine can be given: a
/// numeral between 1 and 1024.
pub open spec fn is_memory_size(text: Seq<char>) -> bool {
    is_numeral(text) && MIN_MEMORY_SIZE <= numeral_value(text) <= MAX_MEMORY_SIZE
}

/// What is said of a number that is no amount of memory.
pub open spec fn memory_size_complaint() -> Seq<char> {
    "memory size has to be in range: 1 - 1024"@
}

/// Accepts the numbers of mebibytes of memory that an engine can be given.
pub fn check_memory_size(memory_size: u64) -> (r: Result<(), String>)
    ensures
        r is Ok <==> MIN_MEMORY_SIZE <= memory_size <= MAX_MEMORY_SIZE,
        r matches Err(complaint) ==> complaint@ == memory_size_complaint(),
{
    if MIN_MEMORY_SIZE <= memory_size && memory_size <= MAX_MEMORY_SIZE {
        Ok(())
    } else {
        Err(String::from_str("memory size has to be in range: 1 - 1024"))
    }
}

/// Accepts the amounts of memory, in mebibytes, that an engine can be given.
/// Of text that is no number it says what reading a number says, and of a
/// number out of range that it is out of range.
pub fn is_valid_memory_size(v: String) -> (r: Result<(), String>)
    ensures
        r is Ok <==> is_memory_size(v@),
        r matches Err(complaint) ==> complaint@ == if u64::read_spec(v@) is Some {
            memory_size_complaint()
        } else {
            u64::complaint_spec(v@)
        },
{
    match u64::read(v.as_str()) {
        Ok(memory_size) => check_memory_size(memory_size),
        Err(cause) => Err(cause),
    }
}

/// Whether the sign bit of a binary64 number is set.
pub open spec fn sign_of(bits: u64) -> bool {
    bits >> 63 == 1
}

/// The exponent field of a binary64 number: eleven bits.
pub open spec fn exponent_of(bits: u64) -> u64 {
    (bits >> 52) & 0x7ff
}

/// The fraction field of a binary64 number: fifty-two bits.
pub open spec fn fraction_of(bits: u64) -> u64 {
    bits & 0xf_ffff_ffff_ffff
}

/// The exponent field of the numbers from one up to two.
pub const EXPONENT_OF_ONE: u64 = 1023;

/// Whether the binary64 number with these bits lies between zero and one,
/// both included. With the sign set only zero does. Without it the numbers
/// whose exponent is below that of one do, and one itself; an infinity and
/// what is not a number have the greatest exponent and do not.
pub open spec fn is_unit_ratio(bits: u64) -> bool {
    if sign_of(bits) {
        exponent_of(bits) == 0 && fraction_of(bits) == 0
    } else {
        exponent_of(bits) < EXPONENT_OF_ONE || (exponent_of(bits) == EXPONENT_OF_ONE
            && fraction_of(bits) == 0)
    }
}

/// Whether the bits are those of a number: neither an infinity nor what is
/// not a number.
pub open spec fn is_finite(bits: u64) -> bool {
    exponent_of(bits) < 2047
}

/// The size of the binary64 number with these bits, sign apart, counted in
/// the smallest step that such numbers make, two to the power of -1074. A
/// number with the exponent zero is its fraction in such steps; with a
/// greater exponent a one stands before the fraction, and each step up in the
/// exponent doubles the number.
pub open spec fn magnitude(bits: u64) -> nat {
    if exponent_of(bits) == 0 {
        fraction_of(bits) as nat
    } else {
        (pow2(52) + fraction_of(bits)) as nat * pow2((exponent_of(bits) - 1) as nat)
    }
}

/// The bits that are accepted as a ratio are those of the numbers between
/// zero and one: the number one is two to the power of 1074 of the smallest
/// steps, and a number with the sign set is not below zero only where it is
/// zero.
pub proof fn lemma_unit_ratio_is_between_zero_and_one(bits: u64)
    ensures
        is_unit_ratio(bits) <==> is_finite(bits) && if sign_of(bits) {
            magnitude(bits) == 0
        } else {
            magnitude(bits) <= pow2(1074)
        },
{
    let exponent = exponent_of(bits);
    let fraction = fraction_of(bits);
    lemma2_to64();
    lemma2_to64_rest();
    assert(fraction < 0x10_0000_0000_0000) by (bit_vector)
        requires
            fraction == bits & 0xf_ffff_ffff_ffff,
    ;
    assert(exponent <= 2047) by (bit_vector)
        requires
            exponent == (bits >> 52) & 0x7ff,
    ;
    assert(pow2(52) == 0x10_0000_0000_0000);
    let one = pow2(1074);
    lemma_pow2_adds(52, 1022);
    if exponent == 0 {
        lemma_pow2_strictly_increases(52, 1074);
    } else {
        let scale = pow2((exponent - 1) as nat);
        let lead = pow2(52) as int;
        lemma_pow2_pos((exponent - 1) as nat);
        assert(magnitude(bits) >= lead * scale) by (nonlinear_arith)
            requires
                magnitude(bits) == (lead + fraction) * scale,
                0 <= fraction,
                0 < scale,
        ;
        assert(magnitude(bits) > 0) by (nonlinear_arith)
            requires
                magnitude(bits) >= lead * scale,
                0 < lead,
                0 < scale,
        ;
        if exponent < 1023 {
            lemma_pow2_adds(53, (exponent - 1) as nat);
            assert(pow2(53) == 2 * lead) by {
                lemma_pow2_adds(52, 1);
            }
            assert(magnitude(bits) < pow2(53) * scale) by (nonlinear_arith)
                requires
                    magnitude(bits) == (lead + fraction) * scale,
                    fraction < lead,
                    pow2(53) == 2 * lead,
                    0 < scale,
            ;
            if exponent < 1022 {
                lemma_pow2_strictly_increases((52 + exponent) as nat, 1074);
            }
        } else if exponent == 1023 {
            assert(magnitude(bits) == one + fraction * scale) by (nonlinear_arith)
                requires
                    magnitude(bits) == (lead + fraction) * scale,
                    one == lead * scale,
            ;
            assert(fraction > 0 ==> fraction * scale > 0) by (nonlinear_arith)
                requires
                    0 < scale,
            ;
        } else {
            lemma_pow2_adds(52, (exponent - 1) as nat);
            lemma_pow2_strictly_increases(1074, (52 + exponent - 1) as nat);
        }
    }
}

/// A number with a greater exponent is the greater number, whatever the
/// fractions.
proof fn lemma_magnitude_by_exponent(a: u64, b: u64)
    requires
        exponent_of(a) < exponent_of(b),
    ensures
        magnitude(a) < magnitude(b),
{
    lemma2_to64();
    lemma2_to64_rest();
    let lead = pow2(52) as int;
    let fa = fraction_of(a);
    let fb = fraction_of(b);
    assert(fa < 0x10_0000_0000_0000) by (bit_vector)
        requires
            fa == a & 0xf_ffff_ffff_ffff,
    ;
    let high = (exponent_of(b) - 1) as nat;
    let top = pow2(high) as int;
    lemma_pow2_pos(high);
    assert(magnitude(b) >= lead * top) by (nonlinear_arith)
        requires
            magnitude(b) == (lead + fb) * top,
            0 <= fb,
            0 < top,
    ;
    assert(lead * top >= lead) by (nonlinear_arith)
        requires
            0 < lead,
            1 <= top,
    ;
    if exponent_of(a) > 0 {
        let low = (exponent_of(a) - 1) as nat;
        let scale = pow2(low) as int;
        lemma_pow2_pos(low);
        lemma_pow2_adds(1, low);
        if low + 1 < high {
            lemma_pow2_strictly_increases(low + 1, high);
        }
        assert(magnitude(a) < lead * (2 * scale)) by (nonlinear_arith)
            requires
                magnitude(a) == (lead + fa) * scale,
                fa < lead,
                0 < scale,
        ;
        assert(lead * (2 * scale) <= lead * top) by (nonlinear_arith)
            requires
                0 < lead,
                2 * scale <= top,
        ;
    }
}

/// Among the numbers without the sign the greater number has the greater
/// bits.
pub proof fn lemma_magnitude_order(a: u64, b: u64)
    requires
        !sign_of(a),
        !sign_of(b),
    ensures
        a < b <==> magnitude(a) < magnitude(b),
{
    let ea = exponent_of(a);
    let eb = exponent_of(b);
    let fa = fraction_of(a);
    let fb = fraction_of(b);
    assert(a >> 63 != 1 && b >> 63 != 1 ==> (a < b <==> (a >> 52) & 0x7ff < (b >> 52) & 0x7ff || ((a
        >> 52) & 0x7ff == (b >> 52) & 0x7ff && a & 0xf_ffff_ffff_ffff < b & 0xf_ffff_ffff_ffff)))
        by (bit_vector);
    if ea < eb {
        lemma_magnitude_by_exponent(a, b);
    } else if eb < ea {
        lemma_magnitude_by_exponent(b, a);
    } else if ea > 0 {
        let scale = pow2((ea - 1) as nat) as int;
        let lead = pow2(52) as int;
        lemma_pow2_pos((ea - 1) as nat);
        assert(fa < fb <==> (lead + fa) * scale < (lead + fb) * scale) by (nonlinear_arith)
            requires
                0 < scale,
        ;
    }
}

/// What is said of a number that is no ratio.
pub open spec fn ratio_complaint() -> Seq<char> {
    "Expected range between 0.0 and 1.0"@
}

/// Decides on the bits of a binary64 number whether it is a ratio.
pub fn ratio_in_range(bits: u64) -> (r: bool)
    ensures
        r == is_unit_ratio(bits),
{
    let sign = bits >> 63 == 1;
    let exponent = (bits >> 52) & 0x7ff;
    let fraction = bits & 0xf_ffff_ffff_ffff;
    if sign {
        exponent == 0 && fraction == 0
    } else {
        exponent < EXPONENT_OF_ONE || (exponent == EXPONENT_OF_ONE && fraction == 0)
    }
}

/// Accepts a ratio. `parsed` is what reading the argument as a binary64 number
/// gave: the bits of the number, or the reason why the text is no number.
pub fn is_ratio(parsed: Result<u64, String>) -> (r: Result<(), String>)
    ensures
        match parsed {
            Ok(bits) => if is_unit_ratio(bits) {
                r is Ok
            } else {
                r matches Err(complaint) && complaint@ == ratio_complaint()
            },
            Err(cause) => r == Err::<(), String>(cause),
        },
{
    match parsed {
        Ok(bits) => {
            if ratio_in_range(bits) {
                Ok(())
            } else {
                Err(String::from_str("Expected range between 0.0 and 1.0"))
            }
        },
        Err(cause) => Err(cause),
    }
}

} // verus!
