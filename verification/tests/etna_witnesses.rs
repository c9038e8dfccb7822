// Deterministic witness tests: each calls a check with frozen inputs and
// expects the `Pass` variant.

use compact_str::etna::{property_try_reserve_overflow_returns_err, PropertyResult};

fn assert_pass(label: &str, r: PropertyResult) {
    match r {
        PropertyResult::Pass => {}
        PropertyResult::Discard => panic!("{label}: discarded (bad witness input)"),
        PropertyResult::Fail(m) => panic!("{label}: property failed: {m}"),
    }
}

#[test]
fn witness_try_reserve_overflow_returns_err_case_from_nonempty_max() {
    // A one-character string + additional=usize::MAX overflows usize;
    // try_reserve must surface that as an Err, not silently wrap.
    let r = property_try_reserve_overflow_returns_err("x".into(), usize::MAX);
    assert_pass("case_from_nonempty_max", r);
}

#[test]
fn witness_try_reserve_overflow_returns_err_case_from_16char_near_max() {
    // 16-char string + (usize::MAX - 8) overflows; the check expects Err.
    let r = property_try_reserve_overflow_returns_err(
        "abcdefghijklmnop".into(),
        usize::MAX - 8,
    );
    assert_pass("case_from_16char_near_max", r);
}
