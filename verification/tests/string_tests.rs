use hjson::escape_bytes;
use hjson::escape_char;
use hjson::escape_key;
use hjson::fmt_i64;
use hjson::fmt_small;
use hjson::fmt_u64;
use hjson::indent;
use hjson::ml_str;
use hjson::quote_str;
use hjson::to_string;
use hjson::HjsonFormatter;
use hjson::Value;

fn enc_str(s: &str) -> String {
    to_string(&Value::Str(s.to_string())).unwrap()
}

#[test]
fn empty_string_is_quoted() {
    assert_eq!(enc_str(""), "\"\"");
}

#[test]
fn plain_strings_are_bare() {
    assert_eq!(enc_str("hello"), "hello");
    assert_eq!(enc_str("abc def"), "abc def");
    // an inner quote does not force quoting
    assert_eq!(enc_str("a\"b"), "a\"b");
    // not a number: superfluous leading zero
    assert_eq!(enc_str("00.5"), "00.5");
    // not a number: nothing before the dot
    assert_eq!(enc_str(".5"), ".5");
    // keyword only as a prefix of a longer word
    assert_eq!(enc_str("truest"), "truest");
}

#[test]
fn keywords_are_quoted() {
    assert_eq!(enc_str("true"), "\"true\"");
    assert_eq!(enc_str("false"), "\"false\"");
    assert_eq!(enc_str("null"), "\"null\"");
    // a keyword followed by whitespace and a comment is still ambiguous
    assert_eq!(enc_str("true #yes"), "\"true #yes\"");
}

#[test]
fn numbers_are_quoted() {
    assert_eq!(enc_str("3"), "\"3\"");
    assert_eq!(enc_str("-2.5"), "\"-2.5\"");
    assert_eq!(enc_str("5e3"), "\"5e3\"");
    assert_eq!(enc_str("0"), "\"0\"");
    // a number followed by a separator still reads as a number
    assert_eq!(enc_str("3 ,more"), "\"3 ,more\"");
}

#[test]
fn number_edge_cases() {
    // minus zero still reads as a number
    assert_eq!(enc_str("-0"), "\"-0\"");
    // a trailing dot is still a number
    assert_eq!(enc_str("5."), "\"5.\"");
    // an exponent needs at least one digit
    assert_eq!(enc_str("5e"), "5e");
    // a number followed by ordinary text is plain text
    assert_eq!(enc_str("3 apples"), "3 apples");
    assert_eq!(enc_str("1/2"), "1/2");
    // a comment opener right after the digits ends the scan
    assert_eq!(enc_str("3/*c*/"), "\"3/*c*/\"");
}

#[test]
fn structural_leads_are_quoted() {
    assert_eq!(enc_str(" lead"), "\" lead\"");
    assert_eq!(enc_str("trail "), "\"trail \"");
    assert_eq!(enc_str("#comment"), "\"#comment\"");
    assert_eq!(enc_str("//slash"), "\"//slash\"");
    assert_eq!(enc_str("{brace"), "\"{brace\"");
    assert_eq!(enc_str("[bracket"), "\"[bracket\"");
    // a leading quote forces quoting; the quote itself is block-safe, so
    // the single-line block form is preferred over escaping it
    assert_eq!(enc_str("\"quoted"), "'''\"quoted'''");
}

#[test]
fn escaped_strings() {
    // tab is unsafe in a block, so the escape table is used
    assert_eq!(enc_str("\ta"), "\"\\ta\"");
    assert_eq!(enc_str("say \"hi\"\t"), "\"say \\\"hi\\\"\\t\"");
}

#[test]
fn multi_line_blocks() {
    assert_eq!(enc_str("line1\nline2"), "\n  '''\n  line1\n  line2\n  '''");
    // an empty line carries no indentation
    assert_eq!(enc_str("a\n\nb"), "\n  '''\n  a\n\n  b\n  '''");
}

#[test]
fn single_line_block() {
    // needs quoting for the trailing space; the backslash makes the block
    // form preferable, and it stays unescaped inside
    assert_eq!(enc_str("back\\slash "), "'''back\\slash '''");
}

#[test]
fn escape_bytes_wraps_and_escapes() {
    let mut out = String::new();
    escape_bytes(&mut out, "xyz");
    assert_eq!(out, "\"xyz\"");
    let mut out2 = String::new();
    escape_bytes(&mut out2, "a\"b\\c\u{8}\u{c}\n\r\t");
    assert_eq!(out2, "\"a\\\"b\\\\c\\b\\f\\n\\r\\t\"");
    let mut out3 = String::new();
    escape_bytes(&mut out3, "é↑");
    assert_eq!(out3, "\"é↑\"");
}

#[test]
fn escape_char_single() {
    let mut out = String::new();
    escape_char(&mut out, '\t');
    assert_eq!(out, "\"\\t\"");
}

#[test]
fn escape_key_bare_and_quoted() {
    let mut out = String::new();
    escape_key(&mut out, "plain_key");
    assert_eq!(out, "plain_key");
    let mut out2 = String::new();
    escape_key(&mut out2, "a b");
    assert_eq!(out2, "\"a b\"");
    let mut out3 = String::new();
    escape_key(&mut out3, "a//b");
    assert_eq!(out3, "\"a//b\"");
}

#[test]
fn quote_str_direct() {
    let mut fmt = HjsonFormatter::new();
    let mut out = String::new();
    quote_str(&mut out, &mut fmt, "plain");
    assert_eq!(out, "plain");
}

#[test]
fn ml_str_direct() {
    let mut fmt = HjsonFormatter::new();
    let mut out = String::new();
    ml_str(&mut out, &mut fmt, "x\ny");
    assert_eq!(out, "\n  '''\n  x\n  y\n  '''");
}

#[test]
fn fmt_small_chooses_shorter() {
    assert_eq!(fmt_small("100000000", "1e8"), "1e+8");
    assert_eq!(fmt_small("1.5", "1.5e0"), "1.5");
    assert_eq!(fmt_small("0.0000001", "1e-7"), "1e-7");
    // one character of slack favours the plain form
    assert_eq!(fmt_small("1234", "1e3"), "1234");
}

#[test]
fn integer_rendering() {
    assert_eq!(fmt_u64(0), "0");
    assert_eq!(fmt_u64(90210), "90210");
    assert_eq!(fmt_i64(-1), "-1");
    assert_eq!(fmt_i64(i64::MIN), "-9223372036854775808");
}

#[test]
fn indent_repeats_unit() {
    let mut out = String::new();
    indent(&mut out, 3, "ab");
    assert_eq!(out, "ababab");
}
