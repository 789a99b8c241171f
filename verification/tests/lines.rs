use vaultkey::lines::{lines, parse_u64_exec};

#[test]
fn lines_like_str_lines() {
    for s in ["", "\n", "a", "a\n", "a\n\nb", "a\r\nb\r\n", "x\ry", "end\r", "\r\n\r\n"] {
        let expected: Vec<String> = s.lines().map(|l| l.to_string()).collect();
        assert_eq!(lines(s), expected, "input {:?}", s);
    }
}

#[test]
fn parse_u64_like_str_parse() {
    for s in ["0", "42", "+7", "", "+", "-1", " 1", "12a", "18446744073709551615", "18446744073709551616", "007"] {
        assert_eq!(parse_u64_exec(s), s.parse::<u64>().ok(), "input {:?}", s);
    }
}
