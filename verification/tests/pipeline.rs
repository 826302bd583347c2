use envdump::decode::fields_of;
use envdump::format::{write_pair, Token, TokenStyle};
use envdump::matching::Pattern;
use envdump::pipeline::run_pipeline;
use envdump::sort::sort_fields;

fn strings(pats: &[&str]) -> Vec<String> {
    pats.iter().map(|p| p.to_string()).collect()
}

fn token(style: TokenStyle, bytes: &[u8]) -> (TokenStyle, Vec<u8>) {
    (style, bytes.to_vec())
}

fn flat(tokens: &[Token]) -> Vec<(TokenStyle, Vec<u8>)> {
    tokens.iter().map(|t| (t.style, t.bytes.clone())).collect()
}

#[test]
fn sort_is_stable_on_equal_names() {
    let buf = b"b=1\0a=2\0a=3\0";
    let fs = fields_of(buf);
    let sorted = sort_fields(buf, fs);
    let pairs: Vec<(&[u8], &[u8])> = sorted
        .iter()
        .map(|f| (&buf[f.name_start..f.name_end], &buf[f.value_start..f.value_end]))
        .collect();
    assert_eq!(
        pairs,
        vec![(&b"a"[..], &b"2"[..]), (b"a", b"3"), (b"b", b"1")]
    );
}

#[test]
fn sort_puts_a_prefix_before_its_extension() {
    let buf = b"ab=2\0a=1\0";
    let fs = fields_of(buf);
    let sorted = sort_fields(buf, fs);
    let names: Vec<&[u8]> = sorted.iter().map(|f| &buf[f.name_start..f.name_end]).collect();
    assert_eq!(names, vec![&b"a"[..], b"ab"]);
}

#[test]
fn write_pair_emits_one_styled_line() {
    let mut out: Vec<Token> = Vec::new();
    write_pair(&mut out, b"K", b"V");
    assert_eq!(
        flat(&out),
        vec![
            token(TokenStyle::Name, b"K"),
            token(TokenStyle::Equals, b"="),
            token(TokenStyle::Value, b"V"),
            token(TokenStyle::Plain, b"\n"),
        ]
    );
}

#[test]
fn write_pair_suppresses_empty_value_token() {
    let mut out: Vec<Token> = Vec::new();
    write_pair(&mut out, b"K", b"");
    assert_eq!(
        flat(&out),
        vec![
            token(TokenStyle::Name, b"K"),
            token(TokenStyle::Equals, b"="),
            token(TokenStyle::Plain, b"\n"),
        ]
    );
}

#[test]
fn end_to_end_no_patterns_no_sort() {
    let p = Pattern::new(&Vec::new(), false, false).unwrap();
    let out = run_pipeline(b"PATH=/bin\0HOME=/root\0", &p, false);
    assert_eq!(
        flat(&out),
        vec![
            token(TokenStyle::Name, b"PATH"),
            token(TokenStyle::Equals, b"="),
            token(TokenStyle::Value, b"/bin"),
            token(TokenStyle::Plain, b"\n"),
            token(TokenStyle::Name, b"HOME"),
            token(TokenStyle::Equals, b"="),
            token(TokenStyle::Value, b"/root"),
            token(TokenStyle::Plain, b"\n"),
        ]
    );
}

#[test]
fn end_to_end_regex_filter() {
    let p = Pattern::new(&strings(&["B"]), false, false).unwrap();
    let out = run_pipeline(b"A=1\0B=2\0C=3\0", &p, false);
    assert_eq!(
        flat(&out),
        vec![
            token(TokenStyle::Name, b"B"),
            token(TokenStyle::Equals, b"="),
            token(TokenStyle::Value, b"2"),
            token(TokenStyle::Plain, b"\n"),
        ]
    );
}

#[test]
fn end_to_end_empty_value_has_no_value_token() {
    let p = Pattern::new(&Vec::new(), false, false).unwrap();
    let out = run_pipeline(b"EMPTY=\0KEY=val\0", &p, false);
    assert_eq!(
        flat(&out),
        vec![
            token(TokenStyle::Name, b"EMPTY"),
            token(TokenStyle::Equals, b"="),
            token(TokenStyle::Plain, b"\n"),
            token(TokenStyle::Name, b"KEY"),
            token(TokenStyle::Equals, b"="),
            token(TokenStyle::Value, b"val"),
            token(TokenStyle::Plain, b"\n"),
        ]
    );
}

#[test]
fn end_to_end_sorted_output() {
    let p = Pattern::new(&Vec::new(), false, false).unwrap();
    let out = run_pipeline(b"PATH=/bin\0HOME=/root\0", &p, true);
    assert_eq!(
        flat(&out),
        vec![
            token(TokenStyle::Name, b"HOME"),
            token(TokenStyle::Equals, b"="),
            token(TokenStyle::Value, b"/root"),
            token(TokenStyle::Plain, b"\n"),
            token(TokenStyle::Name, b"PATH"),
            token(TokenStyle::Equals, b"="),
            token(TokenStyle::Value, b"/bin"),
            token(TokenStyle::Plain, b"\n"),
        ]
    );
}

#[test]
fn zero_matches_give_empty_output() {
    let p = Pattern::new(&strings(&["^NOPE$"]), false, true).unwrap();
    let out = run_pipeline(b"A=1\0B=2\0", &p, false);
    assert!(out.is_empty());
}
