use deboa::method::Method;
use deboa::text::{chars_of, decimal, parse_u64, split_lines, trim_bounds};

fn chars(s: &str) -> Vec<char> {
    s.chars().collect()
}

#[test]
fn decimal_and_parse() {
    assert_eq!(decimal(0), vec!['0']);
    assert_eq!(decimal(1024).iter().collect::<String>(), "1024");
    assert_eq!(parse_u64(&chars("+42")), Some(42));
    assert_eq!(parse_u64(&chars("18446744073709551615")), Some(u64::MAX));
    assert_eq!(parse_u64(&chars("18446744073709551616")), None);
    assert_eq!(parse_u64(&chars("")), None);
    assert_eq!(parse_u64(&chars("+")), None);
    assert_eq!(parse_u64(&chars("-1")), None);
    assert_eq!(parse_u64(&chars("1 ")), None);
    let n = 987654321usize;
    assert_eq!(parse_u64(&decimal(n)), Some(n as u64));
}

#[test]
fn lines_and_trim() {
    let lines = split_lines(&chars("a\r\nb\n\nc"));
    let got: Vec<String> = lines.iter().map(|l| l.iter().collect()).collect();
    assert_eq!(got, vec!["a", "b", "", "c"]);
    assert_eq!(split_lines(&chars("x\n")).len(), 1);
    assert_eq!(split_lines(&chars("")).len(), 0);
    let s = chars("\u{a0} hi there\t");
    let (a, b) = trim_bounds(&s);
    assert_eq!(s[a..b].iter().collect::<String>(), "hi there");
    assert_eq!(chars_of("héllo"), chars("héllo"));
}

#[test]
fn method_names() {
    assert_eq!(Method::from_token(&chars("PATCH")), Some(Method::Patch));
    assert_eq!(Method::from_token(&chars("patch")), None);
    assert_eq!(Method::for_builder("delete"), Some(Method::Delete));
    assert_eq!(Method::for_builder("HEAD"), None);
    assert_eq!(Method::Options.as_string(), "OPTIONS");
}
