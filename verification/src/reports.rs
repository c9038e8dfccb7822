//! The texts with which the runner reports how a framework's run ended.

use crate::compact::{byte_len, can_grow_to, group_byte_len, lemma_byte_len_concat};
use crate::runner::{Metrics, Outcome};
use crate::text::{decimal, lemma_decimal_len_bounds, push_decimal, push_str};
use vstd::prelude::*;

verus! {

/// What is left of `s` after `prefix`, if `s` starts with it.
pub open spec fn strip(s: Seq<char>, prefix: Seq<char>) -> Option<Seq<char>> {
    if prefix.len() <= s.len() && s.take(prefix.len() as int) == prefix {
        Some(s.skip(prefix.len() as int))
    } else {
        None
    }
}

/// What is left of `s` after `prefix`, if `s` starts with it.
pub fn strip_prefix(s: &str, prefix: &str) -> (r: Option<String>)
    ensures
        match r {
            Some(t) => strip(s@, prefix@) == Some(t@),
            None => strip(s@, prefix@) is None,
        },
{
    let n: usize = s.unicode_len();
    let p: usize = prefix.unicode_len();
    if p > n {
        return None;
    }
    let head: String = s.substring_char(0, p).to_owned();
    let wanted: String = prefix.to_owned();
    if head == wanted {
        Some(s.substring_char(p, n).to_owned())
    } else {
        None
    }
}

/// The report of a run asked for a check that the framework does not know.
pub open spec fn unknown_property_text(tool: Seq<char>, property: Seq<char>) -> Seq<char> {
    "Unknown property for "@ + tool + ": "@ + property
}

/// The report of a run asked for a check that `tool` does not know.
pub fn unknown_property_message(tool: &str, property: &str) -> (r: String)
    requires
        can_grow_to(unknown_property_text(tool@, property@)),
    ensures
        r@ == unknown_property_text(tool@, property@),
{
    broadcast use group_byte_len;

    let mut out = String::new();
    push_str(&mut out, "Unknown property for ");
    push_str(&mut out, tool);
    push_str(&mut out, ": ");
    push_str(&mut out, property);
    out
}

/// The report of a run asked for a framework that the runner does not know.
pub open spec fn unknown_tool_text(tool: Seq<char>) -> Seq<char> {
    "Unknown tool: "@ + tool
}

/// The report of a run asked for a framework that the runner does not know.
pub fn unknown_tool_message(tool: &str) -> (r: String)
    requires
        can_grow_to(unknown_tool_text(tool@)),
    ensures
        r@ == unknown_tool_text(tool@),
{
    broadcast use group_byte_len;

    let mut out = String::new();
    push_str(&mut out, "Unknown tool: ");
    push_str(&mut out, tool);
    out
}

/// The report of a crabcheck run that discarded too many inputs.
pub open spec fn gave_up_text(passed: nat, discarded: nat) -> Seq<char> {
    "crabcheck gave up: passed="@ + decimal(passed) + ", discarded="@ + decimal(discarded)
}

/// The report of a crabcheck run that discarded too many inputs, with the
/// numbers of inputs that passed and that were discarded.
pub fn gave_up_message(passed: u64, discarded: u64) -> (r: String)
    ensures
        r@ == gave_up_text(passed as nat, discarded as nat),
{
    broadcast use group_byte_len;

    proof {
        reveal_strlit("crabcheck gave up: passed=");
        reveal_strlit(", discarded=");
        lemma_decimal_len_bounds(passed as nat);
        lemma_decimal_len_bounds(discarded as nat);
    }
    let mut out = String::new();
    push_str(&mut out, "crabcheck gave up: passed=");
    push_decimal(&mut out, passed as u128);
    push_str(&mut out, ", discarded=");
    push_decimal(&mut out, discarded as u128);
    proof {
        assert(out@ =~= gave_up_text(passed as nat, discarded as nat));
    }
    out
}

/// The outcome of a hegel run from the message of the panic it ended with,
/// if any: none is success; a panic raised for an unknown check is reported
/// as such, with no measurements; any other panic is a failure whose report
/// is the message without hegel's "Property test failed: " prefix.
pub fn hegel_outcome(panic_message: Option<&str>, metrics: Metrics) -> (r: Outcome)
    requires
        panic_message matches Some(m) ==> 2 * byte_len(m@) + 256 <= isize::MAX,
    ensures
        match panic_message {
            None => r.0 is Ok && r.1 == metrics,
            Some(m) => match strip(m@, "__unknown_property:"@) {
                Some(rest) => {
                    &&& r.0 matches Err(e) && e@ == unknown_property_text("hegel"@, rest)
                    &&& r.1.inputs == 0 && r.1.elapsed_us == 0
                },
                None => {
                    &&& r.0 matches Err(e) && e@ == match strip(m@, "Property test failed: "@) {
                        Some(rest) => rest,
                        None => m@,
                    }
                    &&& r.1 == metrics
                },
            },
        },
{
    broadcast use group_byte_len;

    match panic_message {
        None => (Ok(()), metrics),
        Some(msg) => match strip_prefix(msg, "__unknown_property:") {
            Some(rest) => {
                proof {
                    reveal_strlit("hegel");
                    reveal_strlit("Unknown property for ");
                    reveal_strlit(": ");
                    let p = "__unknown_property:"@;
                    assert(msg@ =~= msg@.take(p.len() as int) + msg@.skip(p.len() as int));
                    lemma_byte_len_concat(msg@.take(p.len() as int), msg@.skip(p.len() as int));
                }
                (Err(unknown_property_message("hegel", rest.as_str())), Metrics::default())
            },
            None => match strip_prefix(msg, "Property test failed: ") {
                Some(rest) => (Err(rest), metrics),
                None => (Err(msg.to_owned()), metrics),
            },
        },
    }
}

} // verus!
