use grindlang::lexer::{lex, TokenKind};
use grindlang::numeral::Numeral;

fn kinds(src: &str) -> Vec<TokenKind> {
    lex(src)
        .unwrap()
        .into_iter()
        .map(|t| t.kind)
        .filter(|k| *k != TokenKind::Eof)
        .collect()
}

/// The number that a literal denotes.
fn number(n: &Numeral) -> f64 {
    match n {
        Numeral::Decimal(text) => text.parse().unwrap(),
        Numeral::Hex { whole, frac, exp } => {
            let mut value = 0.0;
            for d in whole {
                value = value * 16.0 + *d as f64;
            }
            let mut scale = 1.0 / 16.0;
            for d in frac {
                value += *d as f64 * scale;
                scale /= 16.0;
            }
            let factor = if *exp >= 0 { 2.0 } else { 0.5 };
            for _ in 0..exp.unsigned_abs().min(2100) {
                value *= factor;
            }
            value
        }
    }
}

fn numbers(src: &str) -> Vec<f64> {
    kinds(src)
        .iter()
        .map(|k| match k {
            TokenKind::Number(n) => number(n),
            other => panic!("expected a number, got {other:?}"),
        })
        .collect()
}

#[test]
fn lexes_keywords_and_names() {
    assert_eq!(
        kinds("function foo if x then"),
        vec![TokenKind::Function, TokenKind::Name("foo".into()), TokenKind::If, TokenKind::Name("x".into()), TokenKind::Then]
    );
}

#[test]
fn lexes_operators() {
    assert_eq!(
        kinds("a // b .. c == d ~= e <= f"),
        vec![
            TokenKind::Name("a".into()),
            TokenKind::DoubleSlash,
            TokenKind::Name("b".into()),
            TokenKind::DotDot,
            TokenKind::Name("c".into()),
            TokenKind::Eq,
            TokenKind::Name("d".into()),
            TokenKind::Ne,
            TokenKind::Name("e".into()),
            TokenKind::Le,
            TokenKind::Name("f".into()),
        ]
    );
}

#[test]
fn lexes_numbers() {
    assert_eq!(numbers("3"), vec![3.0]);
    assert_eq!(numbers("3.5"), vec![3.5]);
    assert_eq!(numbers(".5"), vec![0.5]);
    assert_eq!(numbers("1e3"), vec![1000.0]);
    assert_eq!(numbers("0xFF"), vec![255.0]);
}

#[test]
fn lexes_hex_floats() {
    // Binary-exponent scaling is exact (no `powi` rounding), so these hold on every
    // platform and under Miri — `0x1p4` used to lex to 16.000000000000007 under Miri.
    assert_eq!(numbers("0x1p4"), vec![16.0]);
    assert_eq!(numbers("0x1.8p1"), vec![3.0]); // 1.5 * 2
    assert_eq!(numbers("0x1p-1"), vec![0.5]);
}

#[test]
fn lexes_strings_and_escapes() {
    assert_eq!(kinds(r#""hi\n""#), vec![TokenKind::Str("hi\n".into())]);
    assert_eq!(kinds("'a\\tb'"), vec![TokenKind::Str("a\tb".into())]);
}

#[test]
fn lexes_long_strings_and_comments() {
    assert_eq!(
        kinds("[[raw\ntext]]"),
        vec![TokenKind::Str("raw\ntext".into())]
    );
    assert_eq!(kinds("[==[a]]b]==]"), vec![TokenKind::Str("a]]b".into())]);
    // Comments produce no tokens.
    assert_eq!(numbers("-- line\n--[[ block ]] 1"), vec![1.0]);
}

#[test]
fn reports_unterminated_string() {
    let err = lex("\"oops").unwrap_err();
    assert!(err.0.iter().any(|d| d.code == "E0005"));
}

#[test]
fn reports_unknown_char() {
    let err = lex("a $ b").unwrap_err();
    assert!(err.0.iter().any(|d| d.code == "E0001"));
}
