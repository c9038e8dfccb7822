//! The checks run against `CompactString`: what each one decides from its
//! inputs and from what was observed.

use crate::compact::{byte_len, group_byte_len, CompactString};
use crate::text::{decimal, lemma_decimal_len_bounds, push_decimal, push_str};
use vstd::prelude::*;

verus! {

/// Three-way result of a check.
#[derive(Debug, Clone)]
pub enum PropertyResult {
    Pass,
    Fail(String),
    Discard,
}

/// The report of a reservation that succeeded although it overflowed.
pub open spec fn overflow_message(additional: nat, len: nat) -> Seq<char> {
    "try_reserve("@ + decimal(additional) + ") on len="@ + decimal(len)
        + " returned Ok despite overflow"@
}

fn reserve_failure_message(additional: usize, len: usize) -> (r: String)
    ensures
        r@ == overflow_message(additional as nat, len as nat),
{
    broadcast use group_byte_len;

    proof {
        reveal_strlit("try_reserve(");
        reveal_strlit(") on len=");
        reveal_strlit(" returned Ok despite overflow");
        lemma_decimal_len_bounds(additional as nat);
        lemma_decimal_len_bounds(len as nat);
    }
    let mut out = String::new();
    push_str(&mut out, "try_reserve(");
    push_decimal(&mut out, additional as u128);
    push_str(&mut out, ") on len=");
    push_decimal(&mut out, len as u128);
    push_str(&mut out, " returned Ok despite overflow");
    proof {
        assert(out@ =~= overflow_message(additional as nat, len as nat));
    }
    out
}

/// Checks that `CompactString::try_reserve(additional)` on a copy of
/// `initial` fails whenever `initial.len() + additional` overflows `usize`.
///
/// Inputs that do not overflow are discarded; the check passes on every
/// input that does.
pub fn property_try_reserve_overflow_returns_err(initial: String, additional: usize) -> (r:
    PropertyResult)
    ensures
        (r is Pass) <==> byte_len(initial@) + additional > usize::MAX,
        (r is Discard) <==> byte_len(initial@) + additional <= usize::MAX,
{
    let len: usize = initial.len();
    let overflows = len.checked_add(additional).is_none();
    if !overflows {
        return PropertyResult::Discard;
    }
    let mut s = CompactString::new(initial.as_str());
    match s.try_reserve(additional) {
        Ok(()) => PropertyResult::Fail(reserve_failure_message(additional, len)),
        Err(_) => PropertyResult::Pass,
    }
}

/// What `format!("{:?}", s)` writes for a string slice with characters `s`.
pub uninterp spec fn debug_text(s: Seq<char>) -> Seq<char>;

/// Formats `s` with `<str as core::fmt::Debug>::fmt` (through `format!`).
/// The result is named `debug_text` of the characters; what that text is
/// (the escapes are chosen by Unicode tables) is left unsaid, but for its
/// size: two quotes around, for each character, the character itself or an
/// escape of at most ten ASCII characters (`\u{10ffff}` is the longest), so
/// at most ten bytes per byte of `s`, plus two. `requires` keeps that size
/// within what a `String` that grows by appending can hold.
#[verifier::external_body]
fn debug_string(s: &str) -> (r: String)
    requires
        20 * byte_len(s@) + 4 <= isize::MAX,
    ensures
        r@ == debug_text(s@),
        byte_len(r@) <= 10 * byte_len(s@) + 2,
{
    format!("{:?}", s)
}

/// The report of a `retain` that returned although its predicate panicked.
pub open spec fn no_panic_message(panic_after: nat) -> Seq<char> {
    "CompactString::retain did not propagate predicate panic (panic_after="@ + decimal(
        panic_after,
    ) + ")"@
}

/// The report of a `retain` that left other characters than `String::retain`.
pub open spec fn text_mismatch_message(
    compact: Seq<char>,
    reference: Seq<char>,
    panic_after: nat,
) -> Seq<char> {
    "after panic: CompactString="@ + debug_text(compact) + " but String="@ + debug_text(reference)
        + " (panic_after="@ + decimal(panic_after) + ")"@
}

/// The report of a `retain` that left another length than `String::retain`.
pub open spec fn len_mismatch_message(compact_len: nat, reference_len: nat, panic_after: nat) -> Seq<
    char,
> {
    "after panic: CompactString::len="@ + decimal(compact_len) + " but String::len="@ + decimal(
        reference_len,
    ) + " (panic_after="@ + decimal(panic_after) + ")"@
}

/// Whether the check of `retain` under a panicking predicate has nothing to
/// test on `input`: it is empty, or the predicate would never be asked about
/// the character at `panic_after`.
pub open spec fn retain_case_is_discarded(input: Seq<char>, panic_after: int) -> bool {
    input.len() == 0 || panic_after >= input.len()
}

/// Whether the check of `retain` has nothing to test on `input` with a panic
/// at the character of index `panic_after`.
pub fn retain_case_discarded(input: &str, panic_after: usize) -> (r: bool)
    ensures
        r == retain_case_is_discarded(input@, panic_after as int),
{
    let total_chars: usize = input.unicode_len();
    total_chars == 0 || panic_after >= total_chars
}

/// The verdict of the check of `retain` under a predicate that panics at the
/// character of index `panic_after`, from what was observed: whether
/// `String::retain` (the reference) and `CompactString::retain` propagated the
/// panic, and what each string held afterwards.
///
/// Discarded when the reference did not panic; passes when both panicked and
/// left the same characters; otherwise fails with a report.
pub fn retain_verdict(
    reference_panicked: bool,
    compact_panicked: bool,
    compact: &CompactString,
    reference: &String,
    panic_after: usize,
) -> (r: PropertyResult)
    requires
        20 * byte_len(compact@) + 20 * byte_len(reference@) + 800 <= isize::MAX,
    ensures
        match r {
            PropertyResult::Discard => !reference_panicked,
            PropertyResult::Pass => reference_panicked && compact_panicked && compact@
                == reference@,
            PropertyResult::Fail(m) => reference_panicked && if !compact_panicked {
                m@ == no_panic_message(panic_after as nat)
            } else {
                compact@ != reference@ && m@ == text_mismatch_message(
                    compact@,
                    reference@,
                    panic_after as nat,
                )
            },
        },
{
    broadcast use group_byte_len;

    proof {
        reveal_strlit("CompactString::retain did not propagate predicate panic (panic_after=");
        reveal_strlit(")");
        reveal_strlit("after panic: CompactString=");
        reveal_strlit(" but String=");
        reveal_strlit(" (panic_after=");
        reveal_strlit("after panic: CompactString::len=");
        reveal_strlit(" but String::len=");
        lemma_decimal_len_bounds(panic_after as nat);
    }
    if !reference_panicked {
        return PropertyResult::Discard;
    }
    if !compact_panicked {
        let mut m = String::new();
        push_str(&mut m, "CompactString::retain did not propagate predicate panic (panic_after=");
        push_decimal(&mut m, panic_after as u128);
        push_str(&mut m, ")");
        proof {
            assert(m@ =~= no_panic_message(panic_after as nat));
        }
        return PropertyResult::Fail(m);
    }
    let compact_text: String = compact.as_str().to_owned();
    if compact_text != *reference {
        let mut m = String::new();
        push_str(&mut m, "after panic: CompactString=");
        let c = debug_string(compact.as_str());
        push_str(&mut m, c.as_str());
        push_str(&mut m, " but String=");
        let r = debug_string(reference.as_str());
        push_str(&mut m, r.as_str());
        push_str(&mut m, " (panic_after=");
        push_decimal(&mut m, panic_after as u128);
        push_str(&mut m, ")");
        proof {
            assert(m@ =~= text_mismatch_message(compact@, reference@, panic_after as nat));
        }
        return PropertyResult::Fail(m);
    }
    let compact_len: usize = compact.len();
    let reference_len: usize = reference.len();
    proof {
        lemma_decimal_len_bounds(compact_len as nat);
        lemma_decimal_len_bounds(reference_len as nat);
    }
    if compact_len != reference_len {
        let mut m = String::new();
        push_str(&mut m, "after panic: CompactString::len=");
        push_decimal(&mut m, compact_len as u128);
        push_str(&mut m, " but String::len=");
        push_decimal(&mut m, reference_len as u128);
        push_str(&mut m, " (panic_after=");
        push_decimal(&mut m, panic_after as u128);
        push_str(&mut m, ")");
        proof {
            assert(m@ =~= len_mismatch_message(
                compact_len as nat,
                reference_len as nat,
                panic_after as nat,
            ));
        }
        return PropertyResult::Fail(m);
    }
    PropertyResult::Pass
}

} // verus!
