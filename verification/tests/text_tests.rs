use px::lines::{lines_of, parse_port, words_of};
use px::text::{
    chars_of, contains_chars, decimal_string, find_char, is_white_space, rfind_char, stripped, trimmed,
};

fn chars(s: &str) -> Vec<char> {
    s.chars().collect()
}

fn text(v: &[char]) -> String {
    v.iter().collect()
}

fn samples() -> Vec<String> {
    let mut out: Vec<String> = vec![
        String::new(),
        " ".to_string(),
        "a".to_string(),
        "  hello world  ".to_string(),
        "\t\r\n x \u{a0}".to_string(),
        "foo\nbar\n\r\nbaz\r".to_string(),
        "a\r\n\r\nb\n".to_string(),
        "\n".to_string(),
        "\n\n".to_string(),
        "\r".to_string(),
        "line\r\n".to_string(),
        "\u{3000}wide\u{2009}space\u{3000}".to_string(),
        "TCP    0.0.0.0:135   0.0.0.0:0   LISTENING   1000".to_string(),
    ];
    let alphabet = ['a', ' ', '\n', '\r', '\t', '"', 'é', '\u{a0}', ':', '7'];
    let mut x: u64 = 12345;
    for len in 0..40usize {
        for _ in 0..20 {
            let mut s = String::new();
            for _ in 0..len {
                x = x.wrapping_mul(6364136223846793005).wrapping_add(1442695040888963407);
                s.push(alphabet[((x >> 33) % alphabet.len() as u64) as usize]);
            }
            out.push(s);
        }
    }
    out
}

#[test]
fn chars_of_keeps_every_character() {
    for s in samples() {
        assert_eq!(chars_of(&s), chars(&s));
    }
}

#[test]
fn trimmed_matches_str_trim() {
    for s in samples() {
        assert_eq!(text(&trimmed(&chars(&s))), s.trim());
    }
}

#[test]
fn lines_of_matches_str_lines() {
    for s in samples() {
        let ours: Vec<String> = lines_of(&chars(&s)).iter().map(|l| text(l)).collect();
        let std: Vec<String> = s.lines().map(|l| l.to_string()).collect();
        assert_eq!(ours, std, "text {:?}", s);
    }
}

#[test]
fn words_of_matches_split_whitespace() {
    for s in samples() {
        let ours: Vec<String> = words_of(&chars(&s)).iter().map(|l| text(l)).collect();
        let std: Vec<String> = s.split_whitespace().map(|l| l.to_string()).collect();
        assert_eq!(ours, std);
    }
}

#[test]
fn parse_port_matches_str_parse() {
    let mut cases: Vec<String> = vec![
        "".into(), "+".into(), "-1".into(), "0".into(), "80".into(), "+80".into(), "0080".into(),
        "65535".into(), "65536".into(), "99999999999".into(), "12a".into(), " 1".into(), "++1".into(),
        "*".into(), "00000000000000000000000065535".into(),
    ];
    for n in (0..70000u32).step_by(7) {
        cases.push(n.to_string());
    }
    for c in cases {
        assert_eq!(parse_port(&chars(&c)), c.parse::<u16>().ok(), "input {:?}", c);
    }
}

#[test]
fn stripped_matches_trim_matches() {
    for s in ["", "\"", "\"\"", "\"a\"", "\"\"a b\"\"\"", "a\"b", "svchost.exe\""] {
        assert_eq!(text(&stripped(&chars(s), '"')), s.trim_matches('"'));
    }
}

#[test]
fn find_and_contains() {
    assert_eq!(find_char(&chars("a{b}{c}"), '{'), Some(1));
    assert_eq!(rfind_char(&chars("a{b}{c}"), '}'), Some(6));
    assert_eq!(find_char(&chars("abc"), '{'), None);
    assert!(contains_chars(&chars("MsiExec.exe"), &chars("Exec")));
    assert!(!contains_chars(&chars("MsiExec.exe"), &chars("exec.exe.")));
    assert!(contains_chars(&chars(""), &chars("")));
}

#[test]
fn decimal_string_matches_to_string() {
    for n in [0u64, 7, 10, 99, 100, 65535, 1 << 40, u64::MAX] {
        assert_eq!(decimal_string(n), n.to_string());
    }
}

#[test]
fn is_white_space_matches_char_is_whitespace() {
    let mut count = 0;
    for u in 0u32..=0x10ffff {
        if let Some(c) = char::from_u32(u) {
            assert_eq!(is_white_space(c), c.is_whitespace(), "U+{:04X}", u);
            if c.is_whitespace() {
                count += 1;
            }
        }
    }
    assert_eq!(count, 25);
}
