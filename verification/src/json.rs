use crate::compact::{byte_len, can_grow_to, group_byte_len, lemma_byte_len_concat};
use crate::runner::Metrics;
use crate::text::{
    all_digits, decimal, digits_value, lemma_decimal_len_bounds, lemma_decimal_reads_back,
    push_decimal, push_str,
};
use vstd::prelude::*;

verus! {

/// The lowercase hexadecimal digit of `d` (for `d < 16`).
pub open spec fn hex_digit(d: nat) -> char {
    if d < 10 {
        (48 + d) as char
    } else {
        (87 + d) as char
    }
}

/// How one character is written inside a JSON string literal: quote,
/// backslash, newline, carriage return and tab by their short escapes, the
/// other control characters as `\u00XX`, everything else as itself.
pub open spec fn escape_char(c: char) -> Seq<char> {
    if c == '"' {
        seq!['\\', '"']
    } else if c == '\\' {
        seq!['\\', '\\']
    } else if c == '\n' {
        seq!['\\', 'n']
    } else if c == '\r' {
        seq!['\\', 'r']
    } else if c == '\t' {
        seq!['\\', 't']
    } else if (c as u32) < 0x20 {
        seq!['\\', 'u', '0', '0', hex_digit(((c as u32) / 16) as nat), hex_digit(((c as u32) % 16) as nat)]
    } else {
        seq![c]
    }
}

/// The escapes of the characters of `s`, one after the other.
pub open spec fn escape(s: Seq<char>) -> Seq<char>
    decreases s.len(),
{
    if s.len() == 0 {
        Seq::empty()
    } else {
        escape(s.drop_last()) + escape_char(s.last())
    }
}

/// `s` as a JSON string literal: its escape between double quotes.
pub open spec fn json_string(s: Seq<char>) -> Seq<char> {
    seq!['"'] + escape(s) + seq!['"']
}

/// Whether no character of `s` is a control character (code below 0x20), so
/// in particular none is a line break.
pub open spec fn free_of_controls(s: Seq<char>) -> bool {
    forall|i: int| 0 <= i < s.len() ==> (#[trigger] s[i] as u32) >= 0x20
}

broadcast proof fn lemma_free_of_controls_concat(a: Seq<char>, b: Seq<char>)
    requires
        free_of_controls(a),
        free_of_controls(b),
    ensures
        #[trigger] free_of_controls(a + b),
{
    assert forall|i: int| 0 <= i < (a + b).len() implies ((#[trigger] (a + b)[i]) as u32) >= 0x20 by {
        if i < a.len() {
            assert((a + b)[i] == a[i]);
        } else {
            assert((a + b)[i] == b[i - a.len()]);
        }
    }
}

/// The escape of any string holds no control character.
pub proof fn lemma_escape_free_of_controls(s: Seq<char>)
    ensures
        free_of_controls(escape(s)),
    decreases s.len(),
{
    if s.len() > 0 {
        lemma_escape_free_of_controls(s.drop_last());
        let c = s.last();
        let e = escape_char(c);
        assert(free_of_controls(e)) by {
            if (c as u32) < 0x20 && c != '\n' && c != '\r' && c != '\t' {
                assert((c as u32) / 16 < 2);
            }
        }
        lemma_free_of_controls_concat(escape(s.drop_last()), e);
    }
}

/// A string written as a JSON string literal holds no control character, so
/// it never breaks a line.
pub proof fn lemma_json_string_free_of_controls(s: Seq<char>)
    ensures
        free_of_controls(json_string(s)),
{
    lemma_escape_free_of_controls(s);
    lemma_free_of_controls_concat(seq!['"'], escape(s));
    lemma_free_of_controls_concat(seq!['"'] + escape(s), seq!['"']);
}

/// The value of a hexadecimal digit (either case), if `h` is one.
pub open spec fn hex_value(h: char) -> Option<int> {
    if '0' <= h && h <= '9' {
        Some(h as int - 48)
    } else if 'a' <= h && h <= 'f' {
        Some(h as int - 87)
    } else if 'A' <= h && h <= 'F' {
        Some(h as int - 55)
    } else {
        None
    }
}

/// The value of the four hexadecimal digits at the start of `s`, if they are
/// there.
pub open spec fn hex4(s: Seq<char>) -> Option<int> {
    if s.len() >= 4 && hex_value(s[0]) is Some && hex_value(s[1]) is Some && hex_value(s[2]) is Some
        && hex_value(s[3]) is Some {
        Some(
            hex_value(s[0])->0 * 4096 + hex_value(s[1])->0 * 256 + hex_value(s[2])->0 * 16
                + hex_value(s[3])->0,
        )
    } else {
        None
    }
}

/// The character that a JSON escape `\e` stands for, for the escapes other
/// than `\u`.
pub open spec fn short_escape(e: char) -> Option<char> {
    if e == '"' {
        Some('"')
    } else if e == '\\' {
        Some('\\')
    } else if e == '/' {
        Some('/')
    } else if e == 'b' {
        Some('\u{8}')
    } else if e == 'f' {
        Some('\u{c}')
    } else if e == 'n' {
        Some('\n')
    } else if e == 'r' {
        Some('\r')
    } else if e == 't' {
        Some('\t')
    } else {
        None
    }
}

/// `c` in front of the characters `rest`, if there are any.
pub open spec fn prepend(c: char, rest: Option<Seq<char>>) -> Option<Seq<char>> {
    match rest {
        Some(r) => Some(seq![c] + r),
        None => None,
    }
}

/// The characters that the inside of a JSON string literal stands for, or
/// `None` when it is not a valid one: a raw character other than a quote, a
/// backslash or a control character stands for itself; a backslash starts a
/// short escape or `\uXXXX`, where a high surrogate must be followed by a
/// `\uXXXX` low surrogate and the two stand for one character together.
pub open spec fn json_unescape(s: Seq<char>) -> Option<Seq<char>>
    decreases s.len(),
{
    if s.len() == 0 {
        Some(Seq::empty())
    } else if s[0] != '\\' {
        if s[0] == '"' || (s[0] as u32) < 0x20 {
            None
        } else {
            prepend(s[0], json_unescape(s.skip(1)))
        }
    } else if s.len() < 2 {
        None
    } else if s[1] != 'u' {
        match short_escape(s[1]) {
            Some(c) => prepend(c, json_unescape(s.skip(2))),
            None => None,
        }
    } else {
        match hex4(s.skip(2)) {
            None => None,
            Some(code) => if 0xD800 <= code < 0xDC00 {
                if s.len() >= 8 && s[6] == '\\' && s[7] == 'u' {
                    match hex4(s.skip(8)) {
                        Some(low) => if 0xDC00 <= low < 0xE000 {
                            prepend(
                                ((0x10000 + (code - 0xD800) * 0x400 + (low - 0xDC00)) as u32) as char,
                                json_unescape(s.skip(12)),
                            )
                        } else {
                            None
                        },
                        None => None,
                    }
                } else {
                    None
                }
            } else if 0xDC00 <= code < 0xE000 {
                None
            } else {
                prepend((code as u32) as char, json_unescape(s.skip(6)))
            },
        }
    }
}

/// The characters that a JSON string literal stands for, or `None` when `lit`
/// is not one.
pub open spec fn json_decode(lit: Seq<char>) -> Option<Seq<char>> {
    if lit.len() >= 2 && lit[0] == '"' && lit[lit.len() - 1] == '"' {
        json_unescape(lit.subrange(1, lit.len() - 1))
    } else {
        None
    }
}

/// Reading back the escape of one character, and then more, gives that
/// character in front of what the rest reads as.
proof fn lemma_unescape_escape_char(c: char, t: Seq<char>)
    ensures
        json_unescape(escape_char(c) + t) == prepend(c, json_unescape(t)),
{
    let e = escape_char(c);
    let s = e + t;
    if c == '"' || c == '\\' || c == '\n' || c == '\r' || c == '\t' {
        assert(s[0] == '\\');
        assert(s.skip(2) =~= t);
    } else if (c as u32) < 0x20 {
        let code = c as u32;
        assert(s[0] == '\\' && s[1] == 'u');
        assert(s.skip(6) =~= t);
        let h = s.skip(2);
        assert(h[0] == '0' && h[1] == '0');
        assert(h[2] == hex_digit((code / 16) as nat));
        assert(h[3] == hex_digit((code % 16) as nat));
        assert(code / 16 < 2);
        assert(hex4(h) == Some(((code / 16) * 16 + code % 16) as int));
        assert((code / 16) * 16 + code % 16 == code);
        vstd::utf8::char_u32_cast(c, code);
    } else {
        assert(s[0] == c);
        assert(s.skip(1) =~= t);
    }
}

/// Reading back the escape of a string gives the string.
pub proof fn lemma_unescape_escape(s: Seq<char>)
    ensures
        json_unescape(escape(s)) == Some(s),
    decreases s.len(),
{
    if s.len() == 0 {
        assert(escape(s) =~= Seq::<char>::empty());
    } else {
        let c = s[0];
        let rest = s.drop_first();
        lemma_unescape_escape(rest);
        assert(s =~= seq![c] + rest);
        lemma_escape_concat(seq![c], rest);
        assert(seq![c].drop_last() =~= Seq::<char>::empty());
        assert(escape(Seq::<char>::empty()) =~= Seq::<char>::empty());
        assert(seq![c].last() == c);
        assert(escape(seq![c]) =~= escape_char(c));
        lemma_unescape_escape_char(c, escape(rest));
        assert(seq![c] + rest =~= s);
    }
}

/// A string written as a JSON string literal starts and ends with a double
/// quote, holds no control character, and reads back as exactly the string.
pub proof fn lemma_json_string_decodes(s: Seq<char>)
    ensures
        json_string(s).len() >= 2,
        json_string(s)[0] == '"',
        json_string(s)[json_string(s).len() - 1] == '"',
        free_of_controls(json_string(s)),
        json_decode(json_string(s)) == Some(s),
{
    lemma_json_string_free_of_controls(s);
    lemma_unescape_escape(s);
    let j = json_string(s);
    assert(j.subrange(1, j.len() - 1) =~= escape(s));
}

/// A string with no double quote, backslash or control character is written
/// as itself between double quotes.
pub proof fn lemma_json_string_plain(s: Seq<char>)
    requires
        forall|i: int|
            0 <= i < s.len() ==> #[trigger] s[i] != '"' && s[i] != '\\' && (s[i] as u32) >= 0x20,
    ensures
        escape(s) == s,
        json_string(s) == seq!['"'] + s + seq!['"'],
    decreases s.len(),
{
    if s.len() > 0 {
        lemma_json_string_plain(s.drop_last());
        assert(escape_char(s.last()) =~= seq![s.last()]);
        assert(s.drop_last() + seq![s.last()] =~= s);
    } else {
        assert(escape(s) =~= s);
    }
}

/// The escape of `c` as a string of its own.
fn escape_piece(c: char) -> (r: String)
    ensures
        r@ == escape_char(c),
{
    broadcast use group_byte_len;

    let mut out = String::new();
    if c == '"' {
        out.push('\\');
        out.push('"');
    } else if c == '\\' {
        out.push('\\');
        out.push('\\');
    } else if c == '\n' {
        out.push('\\');
        out.push('n');
    } else if c == '\r' {
        out.push('\\');
        out.push('r');
    } else if c == '\t' {
        out.push('\\');
        out.push('t');
    } else if (c as u32) < 0x20 {
        let code: u32 = c as u32;
        let high: u8 = (code / 16) as u8;
        let low: u8 = (code % 16) as u8;
        out.push('\\');
        out.push('u');
        out.push('0');
        out.push('0');
        out.push((48u8 + high) as char);
        if low < 10 {
            out.push((48u8 + low) as char);
        } else {
            out.push((87u8 + low) as char);
        }
    } else {
        out.push(c);
    }
    proof {
        assert(out@ =~= escape_char(c));
    }
    out
}

/// The escape of two strings one after the other is the escape of each.
pub proof fn lemma_escape_concat(a: Seq<char>, b: Seq<char>)
    ensures
        escape(a + b) == escape(a) + escape(b),
    decreases b.len(),
{
    if b.len() == 0 {
        assert(a + b =~= a);
        assert(escape(a) + escape(b) =~= escape(a));
    } else {
        lemma_escape_concat(a, b.drop_last());
        assert((a + b).drop_last() =~= a + b.drop_last());
        assert((a + b).last() == b.last());
        assert(escape(a + b) =~= escape(a) + escape(b));
    }
}

/// `s` written as a JSON string literal.
pub fn json_str(s: &str) -> (r: String)
    requires
        can_grow_to(json_string(s@)),
    ensures
        r@ == json_string(s@),
{
    broadcast use group_byte_len;

    let mut out = String::new();
    out.push('"');
    for c in it: s.chars()
        invariant
            it.seq() == s@,
            can_grow_to(json_string(s@)),
            out@ == seq!['"'] + escape(s@.take(it.index() as int)),
    {
        let ghost i: int = it.index() as int;
        let piece = escape_piece(c);
        proof {
            assert(s@ =~= s@.take(i + 1) + s@.skip(i + 1));
            lemma_escape_concat(s@.take(i + 1), s@.skip(i + 1));
            assert(s@.take(i + 1).drop_last() =~= s@.take(i));
            assert(json_string(s@) =~= (out@ + piece@) + (escape(s@.skip(i + 1)) + seq!['"']));
            lemma_byte_len_concat(out@ + piece@, escape(s@.skip(i + 1)) + seq!['"']);
        }
        push_str(&mut out, piece.as_str());
        proof {
            assert(s@.take(i + 1).drop_last() =~= s@.take(i));
            assert(out@ =~= seq!['"'] + escape(s@.take(i + 1)));
        }
    }
    proof {
        assert(s@.take(s@.len() as int) =~= s@);
        assert(json_string(s@) =~= out@.push('"'));
    }
    out.push('"');
    proof {
        assert(out@ =~= json_string(s@));
    }
    out
}

/// An optional text as a JSON value: its string literal, or `null`.
pub open spec fn json_or_null(s: Option<&str>) -> Seq<char> {
    match s {
        Some(t) => json_string(t@),
        None => "null"@,
    }
}

/// The one-line JSON report of a run.
pub open spec fn json_report(
    tool: Seq<char>,
    property: Seq<char>,
    status: Seq<char>,
    metrics: Metrics,
    counterexample: Option<&str>,
    error: Option<&str>,
) -> Seq<char> {
    "{\"status\":"@ + json_string(status) + ",\"tests\":"@ + decimal(metrics.inputs as nat)
        + ",\"discards\":0,\"time\":"@ + json_string(decimal(metrics.elapsed_us as nat) + "us"@)
        + ",\"counterexample\":"@ + json_or_null(counterexample) + ",\"error\":"@ + json_or_null(
        error,
    ) + ",\"tool\":"@ + json_string(tool) + ",\"property\":"@ + json_string(property) + "}"@
}

proof fn lemma_decimal_free_of_controls(n: nat)
    ensures
        free_of_controls(decimal(n)),
    decreases n,
{
    if n >= 10 {
        lemma_decimal_free_of_controls(n / 10);
        lemma_free_of_controls_concat(decimal(n / 10), seq![crate::text::digit_char(n % 10)]);
        assert(decimal(n) =~= decimal(n / 10) + seq![crate::text::digit_char(n % 10)]);
    }
}

/// Every report is a single line: it holds no control character, so no line
/// break, whatever the tool, check, status, counterexample and error texts.
pub proof fn lemma_json_report_single_line(
    tool: Seq<char>,
    property: Seq<char>,
    status: Seq<char>,
    metrics: Metrics,
    counterexample: Option<&str>,
    error: Option<&str>,
)
    ensures
        free_of_controls(json_report(tool, property, status, metrics, counterexample, error)),
{
    reveal_strlit("{\"status\":");
    reveal_strlit(",\"tests\":");
    reveal_strlit(",\"discards\":0,\"time\":");
    reveal_strlit("us");
    reveal_strlit(",\"counterexample\":");
    reveal_strlit(",\"error\":");
    reveal_strlit(",\"tool\":");
    reveal_strlit(",\"property\":");
    reveal_strlit("}");
    reveal_strlit("null");
    lemma_json_string_free_of_controls(status);
    lemma_json_string_free_of_controls(decimal(metrics.elapsed_us as nat) + "us"@);
    lemma_json_string_free_of_controls(tool);
    lemma_json_string_free_of_controls(property);
    lemma_decimal_free_of_controls(metrics.inputs as nat);
    match counterexample {
        Some(t) => lemma_json_string_free_of_controls(t@),
        None => {},
    }
    match error {
        Some(t) => lemma_json_string_free_of_controls(t@),
        None => {},
    }
    let parts = report_parts(tool, property, status, metrics, counterexample, error);
    assert forall|j: int| 0 <= j < parts.len() implies free_of_controls(#[trigger] parts[j]) by {
    }
    lemma_concat_parts_free_of_controls(parts, parts.len() as int);
    assert(parts.take(parts.len() as int) =~= parts);
    lemma_report_parts(tool, property, status, metrics, counterexample, error);
}

/// The pieces of `parts` one after the other.
pub open spec fn concat_parts(parts: Seq<Seq<char>>) -> Seq<char>
    decreases parts.len(),
{
    if parts.len() == 0 {
        Seq::empty()
    } else {
        concat_parts(parts.drop_last()) + parts.last()
    }
}

proof fn lemma_concat_parts_free_of_controls(parts: Seq<Seq<char>>, k: int)
    requires
        0 <= k <= parts.len(),
        forall|j: int| 0 <= j < parts.len() ==> free_of_controls(#[trigger] parts[j]),
    ensures
        free_of_controls(concat_parts(parts.take(k))),
    decreases k,
{
    if k > 0 {
        lemma_concat_parts_free_of_controls(parts, k - 1);
        assert(parts.take(k).drop_last() =~= parts.take(k - 1));
        lemma_free_of_controls_concat(concat_parts(parts.take(k - 1)), parts[k - 1]);
    } else {
        assert(concat_parts(parts.take(0)) =~= Seq::<char>::empty());
    }
}

/// The pieces of a report, in order; the report is their concatenation.
pub open spec fn report_parts(
    tool: Seq<char>,
    property: Seq<char>,
    status: Seq<char>,
    metrics: Metrics,
    counterexample: Option<&str>,
    error: Option<&str>,
) -> Seq<Seq<char>> {
    seq![
        "{\"status\":"@,
        json_string(status),
        ",\"tests\":"@,
        decimal(metrics.inputs as nat),
        ",\"discards\":0,\"time\":"@,
        json_string(decimal(metrics.elapsed_us as nat) + "us"@),
        ",\"counterexample\":"@,
        json_or_null(counterexample),
        ",\"error\":"@,
        json_or_null(error),
        ",\"tool\":"@,
        json_string(tool),
        ",\"property\":"@,
        json_string(property),
        "}"@,
    ]
}

proof fn lemma_report_parts(
    tool: Seq<char>,
    property: Seq<char>,
    status: Seq<char>,
    metrics: Metrics,
    counterexample: Option<&str>,
    error: Option<&str>,
)
    ensures
        concat_parts(report_parts(tool, property, status, metrics, counterexample, error))
            == json_report(tool, property, status, metrics, counterexample, error),
{
    reveal_with_fuel(concat_parts, 16);
    assert(concat_parts(report_parts(tool, property, status, metrics, counterexample, error))
        =~= json_report(tool, property, status, metrics, counterexample, error));
}

proof fn lemma_concat_parts_step(parts: Seq<Seq<char>>, k: int)
    requires
        0 <= k < parts.len(),
    ensures
        concat_parts(parts.take(k + 1)) == concat_parts(parts.take(k)) + parts[k],
{
    assert(parts.take(k + 1).drop_last() =~= parts.take(k));
}

/// A prefix of the pieces takes no more bytes than all of them.
proof fn lemma_concat_parts_prefix(parts: Seq<Seq<char>>, k: int)
    requires
        0 <= k <= parts.len(),
    ensures
        byte_len(concat_parts(parts.take(k))) <= byte_len(concat_parts(parts)),
    decreases parts.len() - k,
{
    if k < parts.len() {
        lemma_concat_parts_prefix(parts, k + 1);
        lemma_concat_parts_step(parts, k);
        lemma_byte_len_concat(concat_parts(parts.take(k)), parts[k]);
    } else {
        assert(parts.take(k) =~= parts);
    }
}

/// Each piece takes no more bytes than all of them.
proof fn lemma_concat_parts_piece(parts: Seq<Seq<char>>, j: int)
    requires
        0 <= j < parts.len(),
    ensures
        byte_len(parts[j]) <= byte_len(concat_parts(parts)),
{
    lemma_concat_parts_prefix(parts, j + 1);
    lemma_concat_parts_step(parts, j);
    lemma_byte_len_concat(concat_parts(parts.take(j)), parts[j]);
}

fn json_or_null_string(s: Option<&str>) -> (r: String)
    requires
        can_grow_to(json_or_null(s)),
    ensures
        r@ == json_or_null(s),
{
    match s {
        Some(t) => json_str(t),
        None => "null".to_owned(),
    }
}

/// A JSON object with the report's keys in order, each followed by the raw
/// JSON text of its value.
pub open spec fn report_layout(
    status: Seq<char>,
    tests: Seq<char>,
    time: Seq<char>,
    counterexample: Seq<char>,
    error: Seq<char>,
    tool: Seq<char>,
    property: Seq<char>,
) -> Seq<char> {
    "{\"status\":"@ + status + ",\"tests\":"@ + tests + ",\"discards\":0,\"time\":"@ + time
        + ",\"counterexample\":"@ + counterexample + ",\"error\":"@ + error + ",\"tool\":"@ + tool
        + ",\"property\":"@ + property + "}"@
}

/// Whether `digits` is a decimal numeral (one or more ASCII digits) for `n`.
pub open spec fn spells(digits: Seq<char>, n: nat) -> bool {
    digits.len() > 0 && all_digits(digits) && digits_value(digits) == n
}

/// Whether the JSON value `lit` is `null` for no text, or a string literal
/// that reads back as the text.
pub open spec fn reads_as_optional(lit: Seq<char>, text: Option<&str>) -> bool {
    match text {
        Some(t) => json_decode(lit) == Some(t@),
        None => lit == "null"@,
    }
}

/// Whether `line` is a report that reads back as these inputs: the values of
/// `status`, `tool` and `property` are string literals that decode to those
/// texts, `tests` is a numeral for the number of inputs tried, `time` is a
/// string literal that decodes to a numeral for the microseconds followed by
/// `us`, and `counterexample` and `error` are `null` or decode to their texts.
pub open spec fn report_reads_back(
    line: Seq<char>,
    tool: Seq<char>,
    property: Seq<char>,
    status: Seq<char>,
    metrics: Metrics,
    counterexample: Option<&str>,
    error: Option<&str>,
) -> bool {
    exists|s: Seq<char>, t: Seq<char>, m: Seq<char>, c: Seq<char>, e: Seq<char>, tl: Seq<char>, p: Seq<char>|
        #![trigger report_layout(s, t, m, c, e, tl, p)]
        {
            &&& line == report_layout(s, t, m, c, e, tl, p)
            &&& json_decode(s) == Some(status)
            &&& spells(t, metrics.inputs as nat)
            &&& json_decode(m) matches Some(x) && x.len() >= 2 && x.skip(x.len() - 2) == "us"@
                && spells(x.take(x.len() - 2), metrics.elapsed_us as nat)
            &&& reads_as_optional(c, counterexample)
            &&& reads_as_optional(e, error)
            &&& json_decode(tl) == Some(tool)
            &&& json_decode(p) == Some(property)
        }
}

proof fn lemma_json_or_null_reads(text: Option<&str>)
    ensures
        reads_as_optional(json_or_null(text), text),
{
    match text {
        Some(t) => lemma_json_string_decodes(t@),
        None => {},
    }
}

/// Every report reads back as what it reports: each field's value, decoded
/// as JSON text and read as a number where it is one, is exactly the input
/// it was written from.
pub proof fn lemma_json_report_reads_back(
    tool: Seq<char>,
    property: Seq<char>,
    status: Seq<char>,
    metrics: Metrics,
    counterexample: Option<&str>,
    error: Option<&str>,
)
    ensures
        report_reads_back(
            json_report(tool, property, status, metrics, counterexample, error),
            tool,
            property,
            status,
            metrics,
            counterexample,
            error,
        ),
{
    reveal_strlit("us");
    let s = json_string(status);
    let t = decimal(metrics.inputs as nat);
    let x = decimal(metrics.elapsed_us as nat) + "us"@;
    let m = json_string(x);
    let c = json_or_null(counterexample);
    let e = json_or_null(error);
    let tl = json_string(tool);
    let p = json_string(property);
    lemma_json_string_decodes(status);
    lemma_json_string_decodes(x);
    lemma_json_string_decodes(tool);
    lemma_json_string_decodes(property);
    lemma_json_or_null_reads(counterexample);
    lemma_json_or_null_reads(error);
    lemma_decimal_reads_back(metrics.inputs as nat);
    lemma_decimal_reads_back(metrics.elapsed_us as nat);
    assert(x.take(x.len() - 2) =~= decimal(metrics.elapsed_us as nat));
    assert(x.skip(x.len() - 2) =~= "us"@);
    assert(json_report(tool, property, status, metrics, counterexample, error) == report_layout(
        s,
        t,
        m,
        c,
        e,
        tl,
        p,
    ));
}

/// The one-line JSON report of a run of `property` under `tool`.
#[verifier::spinoff_prover]
pub fn json_line(
    tool: &str,
    property: &str,
    status: &str,
    metrics: Metrics,
    counterexample: Option<&str>,
    error: Option<&str>,
) -> (r: String)
    requires
        can_grow_to(json_report(tool@, property@, status@, metrics, counterexample, error)),
    ensures
        r@ == json_report(tool@, property@, status@, metrics, counterexample, error),
        report_reads_back(r@, tool@, property@, status@, metrics, counterexample, error),
{
    broadcast use group_byte_len;

    let ghost parts = report_parts(tool@, property@, status@, metrics, counterexample, error);
    proof {
        lemma_report_parts(tool@, property@, status@, metrics, counterexample, error);
        assert forall|j: int| 0 <= j < parts.len() implies can_grow_to(#[trigger] parts[j]) by {
            lemma_concat_parts_piece(parts, j);
        }
        lemma_decimal_len_bounds(metrics.elapsed_us as nat);
        reveal_strlit("us");
        assert(parts[1] == json_string(status@));
        assert(parts[5] == json_string(decimal(metrics.elapsed_us as nat) + "us"@));
        assert(parts[7] == json_or_null(counterexample));
        assert(parts[9] == json_or_null(error));
        assert(parts[11] == json_string(tool@));
        assert(parts[13] == json_string(property@));
    }
    let mut time = String::new();
    push_decimal(&mut time, metrics.elapsed_us);
    push_str(&mut time, "us");
    let status_json = json_str(status);
    let mut inputs = String::new();
    proof {
        lemma_decimal_len_bounds(metrics.inputs as nat);
    }
    push_decimal(&mut inputs, metrics.inputs as u128);
    let time_json = json_str(time.as_str());
    let counterexample_json = json_or_null_string(counterexample);
    let error_json = json_or_null_string(error);
    let tool_json = json_str(tool);
    let property_json = json_str(property);
    let pieces: Vec<&str> = vec![
        "{\"status\":",
        status_json.as_str(),
        ",\"tests\":",
        inputs.as_str(),
        ",\"discards\":0,\"time\":",
        time_json.as_str(),
        ",\"counterexample\":",
        counterexample_json.as_str(),
        ",\"error\":",
        error_json.as_str(),
        ",\"tool\":",
        tool_json.as_str(),
        ",\"property\":",
        property_json.as_str(),
        "}",
    ];
    proof {
        assert(pieces@.len() == parts.len());
        assert forall|j: int| 0 <= j < parts.len() implies (#[trigger] pieces@[j])@ == parts[j] by {
        }
    }
    let mut out = String::new();
    let n: usize = pieces.len();
    let mut k: usize = 0;
    while k < n
        invariant
            n == pieces@.len(),
            n == parts.len(),
            k <= n,
            forall|j: int| 0 <= j < parts.len() ==> (#[trigger] pieces@[j])@ == parts[j],
            can_grow_to(concat_parts(parts)),
            out@ == concat_parts(parts.take(k as int)),
        decreases n - k,
    {
        proof {
            lemma_concat_parts_step(parts, k as int);
            lemma_concat_parts_prefix(parts, k + 1);
        }
        push_str(&mut out, pieces[k]);
        k = k + 1;
    }
    proof {
        assert(parts.take(n as int) =~= parts);
    }
    proof {
        assert(report_reads_back(out@, tool@, property@, status@, metrics, counterexample, error)) by {
            lemma_json_report_reads_back(tool@, property@, status@, metrics, counterexample, error);
        }
    }
    out
}

} // verus!
