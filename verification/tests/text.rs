use devcontainer_env::text::{join_strings, parse_u16, push_decimal, split_once_char, trim_start_char};

#[test]
fn parse_u16_follows_std() {
    for s in ["0", "8080", "+80", "65535", "65536", "", "+", "-1", " 1", "1 ", "0x10", "00042", "99999999999"] {
        assert_eq!(parse_u16(s), s.parse::<u16>().ok(), "input {:?}", s);
    }
}

#[test]
fn decimal_rendering_parses_back() {
    for n in [0u16, 7, 10, 99, 100, 5432, 65535] {
        let mut out = String::new();
        push_decimal(&mut out, n);
        assert_eq!(out, n.to_string());
        assert_eq!(parse_u16(&out), Some(n));
    }
}

#[test]
fn trim_and_split_follow_std() {
    for s in ["///a/b", "a", "", "////"] {
        assert_eq!(trim_start_char(s, '/'), s.trim_start_matches('/'));
    }
    for s in ["k=v", "k=v=w", "novalue", "=", ""] {
        let ours = split_once_char(s, '=');
        let std = s.split_once('=').map(|(a, b)| (a.to_string(), b.to_string()));
        assert_eq!(ours, std);
    }
    let parts = vec!["a".to_string(), "b".to_string(), "c".to_string()];
    assert_eq!(join_strings(&parts, ", "), "a, b, c");
    assert_eq!(join_strings(&vec![], ", "), "");
}
