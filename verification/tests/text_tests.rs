use model_repair::text::{find_from, i64_to_string, line_ranges, parse_i64, parse_usize, split_ranges, str_chars, trim_range};

fn chars(s: &str) -> Vec<char> {
    str_chars(s)
}

fn pieces(c: &Vec<char>, r: &[(usize, usize)]) -> Vec<String> {
    r.iter().map(|(a, b)| c[*a..*b].iter().collect()).collect()
}

#[test]
fn parsing_a_printed_integer_gives_it_back() {
    for v in [0i64, 7, -7, 10, 1234567, -98765, i64::MAX, i64::MIN] {
        let s = i64_to_string(v);
        assert_eq!(s, v.to_string());
        let c = chars(&s);
        assert_eq!(parse_i64(&c, 0, c.len()), Some(v));
    }
    for n in [0usize, 9, 10, 4096, usize::MAX] {
        let c = chars(&n.to_string());
        assert_eq!(parse_usize(&c, 0, c.len()), Some(n));
    }
}

#[test]
fn integers_are_parsed_as_std_parses_them() {
    let p = |s: &str| {
        let c = chars(s);
        parse_i64(&c, 0, c.len())
    };
    assert_eq!(p("+12"), Some(12));
    assert_eq!(p("-0"), Some(0));
    assert_eq!(p(""), None);
    assert_eq!(p("-"), None);
    assert_eq!(p("1 2"), None);
    assert_eq!(p("9223372036854775808"), None);
    assert_eq!(p("-9223372036854775809"), None);
    let u = |s: &str| {
        let c = chars(s);
        parse_usize(&c, 0, c.len())
    };
    assert_eq!(u("-1"), None);
    assert_eq!(u("+3"), Some(3));
}

#[test]
fn splitting_and_lines_follow_std() {
    let c = chars("a,,b,");
    assert_eq!(pieces(&c, &split_ranges(&c, 0, c.len(), ',')), vec!["a", "", "b", ""]);
    let c = chars("one\r\ntwo\n\nthree\n");
    let got = pieces(&c, &line_ranges(&c, 0, c.len()));
    let expected: Vec<String> = "one\r\ntwo\n\nthree\n".lines().map(|l| l.to_string()).collect();
    assert_eq!(got, expected);
}

#[test]
fn trimming_and_searching() {
    let c = chars("  x y \t");
    let (a, b) = trim_range(&c, 0, c.len());
    assert_eq!(pieces(&c, &[(a, b)]), vec!["x y"]);
    let c = chars("   ");
    let (a, b) = trim_range(&c, 0, c.len());
    assert_eq!(a, b);
    let c = chars("abcabc");
    let needle = chars("bc");
    assert_eq!(find_from(&c, &needle, 0, c.len()), Some(1));
    assert_eq!(find_from(&c, &needle, 2, c.len()), Some(4));
    assert_eq!(find_from(&c, &needle, 2, 5), None);
}
