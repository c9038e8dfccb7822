//! The decisions of the check runner: how results and measurements are
//! combined, how the case budget is read, and how generated inputs are shaped.

use crate::compact::{byte_len, lemma_byte_len_char, lemma_byte_len_push};
use crate::etna::{property_try_reserve_overflow_returns_err, retain_case_is_discarded, PropertyResult};
use crate::text::{parse_u64, parse_u64_spec};
use vstd::prelude::*;

verus! {

/// How many inputs were tried, and in how many microseconds.
#[derive(Clone, Copy, Debug)]
pub struct Metrics {
    pub inputs: u64,
    pub elapsed_us: u128,
}

impl Default for Metrics {
    fn default() -> (r: Metrics)
        ensures
            r.inputs == 0,
            r.elapsed_us == 0,
    {
        Metrics { inputs: 0, elapsed_us: 0 }
    }
}

impl Metrics {
    /// The measurements of two runs taken together.
    pub fn combine(self, other: Metrics) -> (r: Metrics)
        requires
            self.inputs + other.inputs <= u64::MAX,
            self.elapsed_us + other.elapsed_us <= u128::MAX,
        ensures
            r.inputs == self.inputs + other.inputs,
            r.elapsed_us == self.elapsed_us + other.elapsed_us,
    {
        Metrics { inputs: self.inputs + other.inputs, elapsed_us: self.elapsed_us + other.elapsed_us }
    }
}

/// The result of running one check, or all of them, with its measurements.
pub type Outcome = (Result<(), String>, Metrics);

/// A check's result as a run's result: a passed or discarded check is
/// success, a failed one is an error carrying its report.
pub fn to_err(r: PropertyResult) -> (out: Result<(), String>)
    ensures
        match r {
            PropertyResult::Fail(m) => out == Err::<(), String>(m),
            _ => out is Ok,
        },
{
    match r {
        PropertyResult::Pass | PropertyResult::Discard => Ok(()),
        PropertyResult::Fail(m) => Err(m),
    }
}

/// What running every check in turn does after one of them has run.
pub enum RunAllStep {
    /// Go on to the next check, with these measurements so far.
    Continue(Metrics),
    /// Stop here: the whole run ends with this error and these measurements.
    Stop(String, Metrics),
}

/// Takes the outcome of one check into a run of all of them: its measurements
/// are added to `total`; an error stops the run with that error.
pub fn run_all_step(total: Metrics, outcome: Outcome) -> (r: RunAllStep)
    requires
        total.inputs + outcome.1.inputs <= u64::MAX,
        total.elapsed_us + outcome.1.elapsed_us <= u128::MAX,
    ensures
        match r {
            RunAllStep::Continue(t) => {
                &&& outcome.0 is Ok
                &&& t.inputs == total.inputs + outcome.1.inputs
                &&& t.elapsed_us == total.elapsed_us + outcome.1.elapsed_us
            },
            RunAllStep::Stop(e, t) => {
                &&& outcome.0 == Err::<(), String>(e)
                &&& t.inputs == total.inputs + outcome.1.inputs
                &&& t.elapsed_us == total.elapsed_us + outcome.1.elapsed_us
            },
        },
{
    let (result, metrics) = outcome;
    let sum = total.combine(metrics);
    match result {
        Ok(()) => RunAllStep::Continue(sum),
        Err(e) => RunAllStep::Stop(e, sum),
    }
}

/// The number of cases each framework tries when none is configured.
pub const DEFAULT_CASES: u64 = 1000;

/// The case budget from the configured text, if any: its value as a decimal
/// `u64`, or `DEFAULT_CASES` when it is absent or not such a number.
pub fn cases_budget_from(configured: Option<&str>) -> (r: u64)
    ensures
        r == match configured {
            Some(s) => match parse_u64_spec(s@) {
                Some(n) => n,
                None => DEFAULT_CASES,
            },
            None => DEFAULT_CASES,
        },
{
    match configured {
        Some(s) => match parse_u64(s) {
            Some(n) => n,
            None => DEFAULT_CASES,
        },
        None => DEFAULT_CASES,
    }
}

/// A UTF-8 string has at least one byte per character.
proof fn lemma_byte_len_at_least_chars(s: Seq<char>)
    ensures
        byte_len(s) >= s.len(),
    decreases s.len(),
{
    reveal_with_fuel(vstd::utf8::encode_utf8, 2);
    if s.len() > 0 {
        lemma_byte_len_at_least_chars(s.drop_first());
        assert(s =~= seq![s[0]] + s.drop_first());
    }
}

/// Replays the frozen inputs of the `try_reserve` check: a one-character
/// string with `usize::MAX` more, and a sixteen-character string with
/// `usize::MAX - 8` more. Both overflow, so both pass.
pub fn check_try_reserve_overflow_returns_err() -> (r: Result<(), String>)
    ensures
        r is Ok,
{
    let one = "x".to_owned();
    proof {
        reveal_strlit("x");
        lemma_byte_len_at_least_chars(one@);
    }
    to_err(property_try_reserve_overflow_returns_err(one, usize::MAX))?;
    let sixteen = "abcdefghijklmnop".to_owned();
    proof {
        reveal_strlit("abcdefghijklmnop");
        lemma_byte_len_at_least_chars(sixteen@);
    }
    to_err(property_try_reserve_overflow_returns_err(sixteen, usize::MAX - 8))?;
    Ok(())
}

/// How a framework is to count one run of a check.
#[derive(Clone, Copy, Debug, PartialEq, Eq)]
pub enum Verdict {
    Passed,
    Discarded,
    Failed,
}

/// The verdict on one run of a check: `None` stands for a run in which the
/// check panicked, which counts as a failure.
pub fn verdict(outcome: Option<PropertyResult>) -> (r: Verdict)
    ensures
        r == match outcome {
            Some(PropertyResult::Pass) => Verdict::Passed,
            Some(PropertyResult::Discard) => Verdict::Discarded,
            _ => Verdict::Failed,
        },
{
    match outcome {
        Some(PropertyResult::Pass) => Verdict::Passed,
        Some(PropertyResult::Discard) => Verdict::Discarded,
        Some(PropertyResult::Fail(_)) | None => Verdict::Failed,
    }
}

/// The printable ASCII character that a generated byte stands for: one of the
/// 94 characters from space (32) to `}` (125).
pub open spec fn printable_char(b: u8) -> char {
    ((b % 94) + 32) as char
}

/// The string of the printable characters that `bytes` stand for, one per byte.
pub fn printable_ascii_string_from_u8s(bytes: &[u8]) -> (r: String)
    requires
        2 * bytes@.len() <= isize::MAX,
    ensures
        r@ == bytes@.map_values(|b: u8| printable_char(b)),
        forall|i: int| 0 <= i < r@.len() ==> 32 <= #[trigger] (r@[i] as u32) <= 125,
{
    let mut s = String::new();
    let n: usize = bytes.len();
    let mut i: usize = 0;
    while i < n
        invariant
            n == bytes@.len(),
            i <= n,
            s@ == bytes@.take(i as int).map_values(|b: u8| printable_char(b)),
            byte_len(s@) == i,
            2 * n <= isize::MAX,
        decreases n - i,
    {
        let b: u8 = bytes[i];
        let c: char = ((b % 94) + 32) as char;
        proof {
            lemma_byte_len_push(s@, c);
            lemma_byte_len_char(c);
        }
        s.push(c);
        proof {
            assert(bytes@.take(i + 1) =~= bytes@.take(i as int).push(b));
            assert(s@ =~= bytes@.take(i + 1).map_values(|b: u8| printable_char(b)));
        }
        i = i + 1;
    }
    proof {
        assert(bytes@.take(n as int) =~= bytes@);
    }
    s
}

/// A count of additional bytes within 255 of `usize::MAX`, carved from one byte.
pub fn near_max_usize_from_u8(k: u8) -> (r: usize)
    ensures
        r == usize::MAX - k,
{
    usize::MAX - (k as usize)
}

/// The length, from 1 to 31, of a generated initial string for the
/// `try_reserve` check, carved from one byte.
pub fn reserve_len_from_u8(b: u8) -> (r: usize)
    ensures
        r == if b % 32 == 0 {
            1
        } else {
            b % 32
        },
{
    let m: u8 = b % 32;
    if m == 0 {
        1
    } else {
        m as usize
    }
}

/// The length, from 1 to 15, of a generated input string for the `retain`
/// check, carved from one byte.
pub fn retain_len_from_u8(b: u8) -> (r: usize)
    ensures
        r == (b % 15) + 1,
{
    ((b % 15) + 1) as usize
}

/// `k` reduced modulo the number of characters of `input` (taken as 1 when
/// `input` is empty).
pub open spec fn panic_index(input: Seq<char>, k: int) -> int {
    k % (if input.len() == 0 {
        1int
    } else {
        input.len() as int
    })
}

/// The index of the character at which the predicate of the `retain` check
/// panics: `k` reduced modulo the number of characters of `input`.
pub fn panic_index_for(input: &str, k: usize) -> (r: usize)
    ensures
        r as int == panic_index(input@, k as int),
{
    let count: usize = input.unicode_len();
    let len: usize = if count == 0 {
        1
    } else {
        count
    };
    k % len
}

/// A generated input for the `retain` check is never discarded: on a
/// non-empty string the panic index falls on one of its characters.
pub proof fn lemma_generated_retain_case_applies(input: Seq<char>, k: int)
    requires
        input.len() > 0,
        k >= 0,
    ensures
        !retain_case_is_discarded(input, panic_index(input, k)),
{
}

/// An initial string of more bytes than the byte `k` carved off `usize::MAX`
/// overflows `usize` together with `near_max_usize_from_u8(k)` more bytes,
/// so the `try_reserve` check is not discarded on it.
pub proof fn lemma_near_max_overflows(initial: Seq<char>, k: u8)
    requires
        byte_len(initial) > k,
    ensures
        byte_len(initial) + (usize::MAX - k) > usize::MAX,
{
}

} // verus!
