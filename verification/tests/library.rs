use compact_str::reports::{
    gave_up_message, hegel_outcome, strip_prefix, unknown_property_message, unknown_tool_message,
};
use compact_str::etna::{
    property_try_reserve_overflow_returns_err, retain_case_discarded, retain_verdict,
    PropertyResult,
};
use compact_str::json::{json_line, json_str};
use compact_str::runner::{
    cases_budget_from, check_try_reserve_overflow_returns_err, near_max_usize_from_u8,
    panic_index_for, printable_ascii_string_from_u8s, reserve_len_from_u8, retain_len_from_u8,
    run_all_step, to_err, verdict, Metrics, RunAllStep, Verdict, DEFAULT_CASES,
};
use compact_str::text::{parse_u64, push_decimal, push_str};
use compact_str::{CompactString, ReserveError};

#[test]
fn compact_new_len_as_str() {
    let s = CompactString::new("héllo");
    assert_eq!(s.as_str(), "héllo");
    assert_eq!(s.len(), 6);
    assert_eq!(CompactString::new("").len(), 0);
}

#[test]
fn try_reserve_overflow_is_err_and_keeps_text() {
    let mut s = CompactString::new("abc");
    assert_eq!(s.try_reserve(usize::MAX), Err(ReserveError));
    assert_eq!(s.try_reserve(usize::MAX - 2), Err(ReserveError));
    assert_eq!(s.as_str(), "abc");
}

#[test]
fn try_reserve_small_request_succeeds() {
    let mut s = CompactString::new("abc");
    assert_eq!(s.try_reserve(0), Ok(()));
    assert_eq!(s.try_reserve(100), Ok(()));
    assert_eq!(s.as_str(), "abc");
    let mut e = CompactString::new("");
    assert_eq!(e.try_reserve(usize::MAX - 100), Err(ReserveError));
    assert_eq!(e.as_str(), "");
}

#[test]
fn retain_keeps_chosen_chars_in_order() {
    let mut s = CompactString::new("abcdef");
    s.retain(|c| c != 'c' && c != 'e');
    assert_eq!(s.as_str(), "abdf");
    assert_eq!(s.len(), 4);
    let mut t = CompactString::new("ñaña");
    t.retain(|c| c == 'ñ');
    assert_eq!(t.as_str(), "ññ");
    let mut u = CompactString::new("xyz");
    u.retain(|_| false);
    assert_eq!(u.as_str(), "");
}

#[test]
fn property_try_reserve_discards_when_no_overflow() {
    assert!(matches!(
        property_try_reserve_overflow_returns_err("abc".into(), 10),
        PropertyResult::Discard
    ));
    assert!(matches!(
        property_try_reserve_overflow_returns_err("abc".into(), usize::MAX - 3),
        PropertyResult::Discard
    ));
    assert!(matches!(
        property_try_reserve_overflow_returns_err("abc".into(), usize::MAX - 2),
        PropertyResult::Pass
    ));
    assert!(matches!(
        property_try_reserve_overflow_returns_err(String::new(), usize::MAX),
        PropertyResult::Discard
    ));
    // multi-byte characters count by bytes: "é" is two bytes
    assert!(matches!(
        property_try_reserve_overflow_returns_err("é".into(), usize::MAX - 1),
        PropertyResult::Pass
    ));
}

#[test]
fn frozen_try_reserve_inputs_pass() {
    assert_eq!(check_try_reserve_overflow_returns_err(), Ok(()));
}

#[test]
fn near_max_inputs_overflow_only_for_longer_strings() {
    // a string of more bytes than k overflows with usize::MAX - k more
    let additional = near_max_usize_from_u8(3);
    assert_eq!(additional, usize::MAX - 3);
    assert!(matches!(
        property_try_reserve_overflow_returns_err("abcd".into(), additional),
        PropertyResult::Pass
    ));
    // a one-byte string with k = 255 does not overflow: the check discards it
    assert!(matches!(
        property_try_reserve_overflow_returns_err("x".into(), near_max_usize_from_u8(255)),
        PropertyResult::Discard
    ));
}

#[test]
fn retain_discard_rule() {
    assert!(retain_case_discarded("", 0));
    assert!(retain_case_discarded("abc", 3));
    assert!(!retain_case_discarded("abc", 2));
    assert!(!retain_case_discarded("é", 0));
    assert!(retain_case_discarded("é", 1));
}

#[test]
fn retain_verdict_cases() {
    let compact = CompactString::new("ab");
    let same = String::from("ab");
    let other = String::from("a");
    assert!(matches!(retain_verdict(false, true, &compact, &same, 2), PropertyResult::Discard));
    assert!(matches!(retain_verdict(true, true, &compact, &same, 2), PropertyResult::Pass));
    match retain_verdict(true, false, &compact, &same, 2) {
        PropertyResult::Fail(m) => assert_eq!(
            m,
            "CompactString::retain did not propagate predicate panic (panic_after=2)"
        ),
        _ => panic!("expected a failure"),
    }
    match retain_verdict(true, true, &compact, &other, 7) {
        PropertyResult::Fail(m) => assert_eq!(
            m,
            "after panic: CompactString=\"ab\" but String=\"a\" (panic_after=7)"
        ),
        _ => panic!("expected a failure"),
    }
    let quoted = CompactString::new("a\"\n");
    match retain_verdict(true, true, &quoted, &other, 0) {
        PropertyResult::Fail(m) => assert_eq!(
            m,
            "after panic: CompactString=\"a\\\"\\n\" but String=\"a\" (panic_after=0)"
        ),
        _ => panic!("expected a failure"),
    }
}

#[test]
fn to_err_maps_results() {
    assert_eq!(to_err(PropertyResult::Pass), Ok(()));
    assert_eq!(to_err(PropertyResult::Discard), Ok(()));
    assert_eq!(to_err(PropertyResult::Fail("boom".into())), Err("boom".to_string()));
}

#[test]
fn verdict_mapping() {
    assert_eq!(verdict(Some(PropertyResult::Pass)), Verdict::Passed);
    assert_eq!(verdict(Some(PropertyResult::Discard)), Verdict::Discarded);
    assert_eq!(verdict(Some(PropertyResult::Fail("x".into()))), Verdict::Failed);
    assert_eq!(verdict(None), Verdict::Failed);
}

#[test]
fn metrics_combine_and_run_all_step() {
    let a = Metrics { inputs: 3, elapsed_us: 10 };
    let b = Metrics { inputs: 4, elapsed_us: 25 };
    let c = a.combine(b);
    assert_eq!((c.inputs, c.elapsed_us), (7, 35));
    let d = Metrics::default();
    assert_eq!((d.inputs, d.elapsed_us), (0, 0));
    match run_all_step(a, (Ok(()), b)) {
        RunAllStep::Continue(t) => assert_eq!((t.inputs, t.elapsed_us), (7, 35)),
        RunAllStep::Stop(..) => panic!("expected to continue"),
    }
    match run_all_step(a, (Err("bad".to_string()), b)) {
        RunAllStep::Stop(e, t) => {
            assert_eq!(e, "bad");
            assert_eq!((t.inputs, t.elapsed_us), (7, 35));
        }
        RunAllStep::Continue(_) => panic!("expected to stop"),
    }
}

#[test]
fn case_budget_parsing() {
    assert_eq!(DEFAULT_CASES, 1000);
    assert_eq!(cases_budget_from(None), 1000);
    assert_eq!(cases_budget_from(Some("250")), 250);
    assert_eq!(cases_budget_from(Some("+7")), 7);
    assert_eq!(cases_budget_from(Some("0")), 0);
    assert_eq!(cases_budget_from(Some("")), 1000);
    assert_eq!(cases_budget_from(Some("+")), 1000);
    assert_eq!(cases_budget_from(Some("-5")), 1000);
    assert_eq!(cases_budget_from(Some("12a")), 1000);
    assert_eq!(cases_budget_from(Some(" 12")), 1000);
    assert_eq!(cases_budget_from(Some("18446744073709551615")), u64::MAX);
    assert_eq!(cases_budget_from(Some("18446744073709551616")), 1000);
}

#[test]
fn parse_u64_agrees_with_std() {
    for s in ["", "+", "0", "007", "+42", "-1", "1_0", "٣", "99999999999999999999", "18446744073709551615"] {
        assert_eq!(parse_u64(s), s.parse::<u64>().ok(), "input {s:?}");
    }
}

#[test]
fn decimal_and_push_str() {
    let mut out = String::from("n=");
    push_decimal(&mut out, 0);
    push_str(&mut out, ",");
    push_decimal(&mut out, 1234567890);
    push_str(&mut out, ",");
    push_decimal(&mut out, u128::MAX);
    assert_eq!(out, format!("n=0,1234567890,{}", u128::MAX));
}

#[test]
fn printable_strings_from_bytes() {
    assert_eq!(printable_ascii_string_from_u8s(&[0, 1, 93, 94, 255]), " !} c");
    assert_eq!(printable_ascii_string_from_u8s(&[]), "");
    let all: Vec<u8> = (0..=255).collect();
    let s = printable_ascii_string_from_u8s(&all);
    assert_eq!(s.chars().count(), 256);
    assert!(s.chars().all(|c| (' '..='}').contains(&c)));
}

#[test]
fn generated_lengths_and_panic_index() {
    assert_eq!(reserve_len_from_u8(0), 1);
    assert_eq!(reserve_len_from_u8(32), 1);
    assert_eq!(reserve_len_from_u8(33), 1);
    assert_eq!(reserve_len_from_u8(31), 31);
    assert_eq!(reserve_len_from_u8(255), 31);
    assert_eq!(retain_len_from_u8(0), 1);
    assert_eq!(retain_len_from_u8(14), 15);
    assert_eq!(retain_len_from_u8(15), 1);
    assert_eq!(panic_index_for("abcdef", 8), 2);
    assert_eq!(panic_index_for("", 8), 0);
    assert_eq!(panic_index_for("éé", 3), 1);
}

#[test]
fn json_string_escapes() {
    assert_eq!(json_str(""), "\"\"");
    assert_eq!(
        json_str("a\"b\\c\n\r\t\u{1}\u{1f} é"),
        "\"a\\\"b\\\\c\\n\\r\\t\\u0001\\u001f é\""
    );
}

#[test]
fn json_report_line() {
    let line = json_line("etna", "All", "passed", Metrics { inputs: 2, elapsed_us: 15 }, None, None);
    assert_eq!(
        line,
        "{\"status\":\"passed\",\"tests\":2,\"discards\":0,\"time\":\"15us\",\"counterexample\":null,\"error\":null,\"tool\":\"etna\",\"property\":\"All\"}"
    );
    let failed = json_line(
        "proptest",
        "RetainPanicPreservesUtf8",
        "failed",
        Metrics { inputs: 0, elapsed_us: 0 },
        Some("(\"ab\ncd\" 1)"),
        Some("x"),
    );
    assert_eq!(
        failed,
        "{\"status\":\"failed\",\"tests\":0,\"discards\":0,\"time\":\"0us\",\"counterexample\":\"(\\\"ab\\ncd\\\" 1)\",\"error\":\"x\",\"tool\":\"proptest\",\"property\":\"RetainPanicPreservesUtf8\"}"
    );
    assert!(!failed.contains('\n'));
}

#[test]
fn generated_retain_cases_apply() {
    for s in ["a", "abcdef", "é!", "0123456789abcde"] {
        for k in [0usize, 1, 5, 15, 255] {
            assert!(!retain_case_discarded(s, panic_index_for(s, k)), "{s:?} {k}");
        }
    }
}

#[test]
fn retain_scenario_after_panic_mid_string() {
    // What the panicking retain leaves when the predicate panics on the third
    // character of "abcdef": the two characters kept before it.
    let compact = CompactString::new("ab");
    let reference = String::from("ab");
    assert!(matches!(retain_verdict(true, true, &compact, &reference, 2), PropertyResult::Pass));
    // A retain that kept its stale length fails the check.
    let stale = CompactString::new("abcdef");
    assert!(matches!(
        retain_verdict(true, true, &stale, &reference, 2),
        PropertyResult::Fail(_)
    ));
}

#[test]
fn reports_of_run_endings() {
    assert_eq!(strip_prefix("abcdef", "abc"), Some("def".to_string()));
    assert_eq!(strip_prefix("abc", "abc"), Some(String::new()));
    assert_eq!(strip_prefix("ab", "abc"), None);
    assert_eq!(strip_prefix("éab", "é"), Some("ab".to_string()));
    assert_eq!(strip_prefix("xabc", "abc"), None);
    assert_eq!(unknown_property_message("etna", "Foo"), "Unknown property for etna: Foo");
    assert_eq!(unknown_tool_message("bar"), "Unknown tool: bar");
    assert_eq!(gave_up_message(3, 4000), "crabcheck gave up: passed=3, discarded=4000");
    let m = Metrics { inputs: 5, elapsed_us: 9 };
    let (r, t) = hegel_outcome(None, m);
    assert_eq!((r, t.inputs, t.elapsed_us), (Ok(()), 5, 9));
    let (r, t) = hegel_outcome(Some("__unknown_property:Foo"), m);
    assert_eq!((r, t.inputs, t.elapsed_us), (Err("Unknown property for hegel: Foo".to_string()), 0, 0));
    let (r, t) = hegel_outcome(Some("Property test failed: (\"ab\" 3)"), m);
    assert_eq!((r, t.inputs), (Err("(\"ab\" 3)".to_string()), 5));
    let (r, _) = hegel_outcome(Some("something else"), m);
    assert_eq!(r, Err("something else".to_string()));
}

#[test]
fn json_plain_text_is_quoted_as_is() {
    for s in ["", "abc", "héllo wörld", "a/b"] {
        assert_eq!(json_str(s), format!("\"{}\"", s));
    }
}
