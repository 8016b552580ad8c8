use memcrabd::protocol::number::{parse_decimal, push_decimal, NumberError};
use memcrabd::protocol::text::{chars_of, is_whitespace, split_whitespace};

fn chars(s: &str) -> Vec<char> {
    s.chars().collect()
}

#[test]
fn whitespace_matches_std() {
    for c in ['\t', '\n', '\u{b}', '\u{c}', '\r', ' ', '\u{85}', '\u{a0}', '\u{1680}', '\u{2000}',
        '\u{200a}', '\u{2028}', '\u{2029}', '\u{202f}', '\u{205f}', '\u{3000}', 'a', '0', '\u{200b}',
        '\u{feff}', '\u{180e}']
    {
        assert_eq!(is_whitespace(c), c.is_whitespace(), "{c:?}");
    }
}

#[test]
fn words_match_split_whitespace() {
    for s in ["", "  ", "a", " a  bc\td\u{3000}é ", "set k 0 0 1 noreply"] {
        let got: Vec<String> =
            split_whitespace(&chars_of(s)).into_iter().map(|w| w.into_iter().collect()).collect();
        let want: Vec<String> = s.split_whitespace().map(|w| w.to_string()).collect();
        assert_eq!(got, want, "{s:?}");
    }
}

#[test]
fn decimal_parse_matches_std() {
    for s in ["0", "42", "+7", "4294967295", "4294967296", "", "+", "-", "-1", "1a", "99999999999a",
        "０"]
    {
        let ours = parse_decimal(&chars(s), u32::MAX as u64);
        let std = s.parse::<u32>();
        match (ours, std) {
            (Ok(a), Ok(b)) => assert_eq!(a, b as u64, "{s:?}"),
            (Err(e), Err(f)) => {
                let kind = match f.kind() {
                    std::num::IntErrorKind::Empty => NumberError::Empty,
                    std::num::IntErrorKind::InvalidDigit => NumberError::InvalidDigit,
                    std::num::IntErrorKind::PosOverflow => NumberError::Overflow,
                    _ => panic!("unexpected kind"),
                };
                assert_eq!(e, kind, "{s:?}");
            }
            (a, b) => panic!("{s:?}: {a:?} vs {b:?}"),
        }
    }
}

#[test]
fn decimal_format() {
    for n in [0u64, 7, 10, 1234, u64::MAX] {
        let mut out = b"x".to_vec();
        push_decimal(&mut out, n);
        assert_eq!(out, format!("x{n}").into_bytes());
    }
}
