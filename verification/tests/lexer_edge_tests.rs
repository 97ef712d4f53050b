use c0mpiler::scanner::scan;
use c0mpiler::scanner::token::{
    BinOp, DecNum, Esc, HexNum, Id, Keyword, LexError, Num, Sep, StrLit, Token, UnOp,
};

#[test]
fn star_disambiguation() {
    assert_eq!(
        scan("12 * 3".to_string()),
        vec![
            Token::Num(Num::DecNum(DecNum::DecNum(12))),
            Token::BinOp(BinOp::IntTimes),
            Token::Num(Num::DecNum(DecNum::DecNum(3))),
        ]
    );
    assert_eq!(
        scan("*x".to_string()),
        vec![
            Token::UnOp(UnOp::Pointer),
            Token::Id(Id::Id("x".to_string())),
        ]
    );
}

// The reading of a bare `-` mirrors the one of `*`: binary after a number
// or an identifier, unary otherwise — a deliberate uniform policy.
#[test]
fn minus_disambiguation() {
    assert_eq!(
        scan("x - 1".to_string()),
        vec![
            Token::Id(Id::Id("x".to_string())),
            Token::BinOp(BinOp::Minus),
            Token::Num(Num::DecNum(DecNum::DecNum(1))),
        ]
    );
    assert_eq!(
        scan("(-1".to_string()),
        vec![
            Token::Sep(Sep::LParen),
            Token::UnOp(UnOp::UnaryMinus),
            Token::Num(Num::DecNum(DecNum::DecNum(1))),
        ]
    );
}

#[test]
fn unterminated_string() {
    assert_eq!(
        scan("\"unterminated".to_string()),
        vec![Token::Invalid(LexError::UnterminatedString)]
    );
    assert_eq!(
        scan("\"\\n".to_string()),
        vec![Token::Invalid(LexError::UnterminatedString)]
    );
}

#[test]
fn string_escape_decoding() {
    assert_eq!(
        scan("\"a\\nb\"".to_string()),
        vec![Token::StrLit(StrLit::StringLiteral("a\nb".to_string()))]
    );
    assert_eq!(
        scan("\"a\\\"b\"".to_string()),
        vec![Token::StrLit(StrLit::StringLiteral("a\"b".to_string()))]
    );
    assert_eq!(
        scan("\"\\t\\\\\"".to_string()),
        vec![Token::StrLit(StrLit::StringLiteral("\t\\".to_string()))]
    );
}

#[test]
fn bad_escape_inside_string() {
    assert_eq!(
        scan("\"a\\q".to_string()),
        vec![Token::Invalid(LexError::UnrecognizedEscape)]
    );
}

#[test]
fn hex_literals() {
    assert_eq!(
        scan("0x2A".to_string()),
        vec![Token::Num(Num::HexNum(HexNum::HexNumber(42)))]
    );
    assert_eq!(
        scan("0X2a".to_string()),
        vec![Token::Num(Num::HexNum(HexNum::HexNumber(42)))]
    );
    assert_eq!(
        scan("0xFFFFFFFF".to_string()),
        vec![Token::Num(Num::HexNum(HexNum::HexNumber(4294967295)))]
    );
}

// A `0x` with no hexadecimal digit after it does not begin a hexadecimal
// literal: the zero stands alone and the `x` opens a word.
#[test]
fn hex_prefix_without_digits() {
    assert_eq!(
        scan("0x".to_string()),
        vec![
            Token::Num(Num::DecNum(DecNum::DecNum(0))),
            Token::Id(Id::Id("x".to_string())),
        ]
    );
}

#[test]
fn numeric_overflow() {
    assert_eq!(
        scan("4294967295".to_string()),
        vec![Token::Num(Num::DecNum(DecNum::DecNum(4294967295)))]
    );
    assert_eq!(
        scan("4294967296".to_string()),
        vec![Token::Invalid(LexError::NumericOverflow)]
    );
    assert_eq!(
        scan("0x100000000".to_string()),
        vec![Token::Invalid(LexError::NumericOverflow)]
    );
}

#[test]
fn unrecognized_escape() {
    assert_eq!(
        scan("\\q".to_string()),
        vec![Token::Invalid(LexError::UnrecognizedEscape)]
    );
    assert_eq!(
        scan("\\".to_string()),
        vec![Token::Invalid(LexError::UnrecognizedEscape)]
    );
}

#[test]
fn unrecognized_character() {
    assert_eq!(
        scan("@".to_string()),
        vec![Token::Invalid(LexError::UnrecognizedCharacter)]
    );
    assert_eq!(
        scan("#$".to_string()),
        vec![
            Token::Invalid(LexError::UnrecognizedCharacter),
            Token::Invalid(LexError::UnrecognizedCharacter),
        ]
    );
}

#[test]
fn whitespace_only() {
    assert_eq!(scan(" \t\r\n".to_string()), vec![]);
    assert_eq!(scan("".to_string()), vec![]);
}

#[test]
fn error_reasons() {
    assert_eq!(
        LexError::UnterminatedString.reason(),
        "unterminated string literal".to_string()
    );
    assert_eq!(
        LexError::UnrecognizedEscape.reason(),
        "unrecognized escape sequence".to_string()
    );
    assert_eq!(
        LexError::NumericOverflow.reason(),
        "numeric literal overflow".to_string()
    );
    assert_eq!(
        LexError::UnrecognizedCharacter.reason(),
        "unrecognized character".to_string()
    );
}

// Errors are reported in-band: one pass surfaces every defect and
// scanning continues after each.
#[test]
fn error_tolerant_scan() {
    assert_eq!(
        scan("@ 42 \\q x".to_string()),
        vec![
            Token::Invalid(LexError::UnrecognizedCharacter),
            Token::Num(Num::DecNum(DecNum::DecNum(42))),
            Token::Invalid(LexError::UnrecognizedEscape),
            Token::Id(Id::Id("x".to_string())),
        ]
    );
}

#[test]
fn keyword_boundaries() {
    assert_eq!(
        scan("iff".to_string()),
        vec![Token::Id(Id::Id("iff".to_string()))]
    );
    assert_eq!(
        scan("int3".to_string()),
        vec![Token::Id(Id::Id("int3".to_string()))]
    );
    assert_eq!(
        scan("Int".to_string()),
        vec![Token::Id(Id::Id("Int".to_string()))]
    );
}

// Identifiers use the full Unicode alphabet: any alphabetic character
// opens a word and any alphanumeric character continues it.
#[test]
fn unicode_identifiers() {
    assert_eq!(
        scan("\u{e9}".to_string()),
        vec![Token::Id(Id::Id("\u{e9}".to_string()))]
    );
    assert_eq!(
        scan("h\u{e9}llo".to_string()),
        vec![Token::Id(Id::Id("h\u{e9}llo".to_string()))]
    );
    assert_eq!(
        scan("\u{4e03}".to_string()),
        vec![Token::Id(Id::Id("\u{4e03}".to_string()))]
    );
    assert_eq!(
        scan("x\u{0663}".to_string()),
        vec![Token::Id(Id::Id("x\u{0663}".to_string()))]
    );
}

// A non-alphabetic character beyond ASCII matches no lexical rule.
#[test]
fn unicode_unrecognized_character() {
    assert_eq!(
        scan("\u{2603}".to_string()),
        vec![Token::Invalid(LexError::UnrecognizedCharacter)]
    );
}

#[test]
fn combination_scenario() {
    assert_eq!(
        scan("int main() { return 0; }".to_string()),
        vec![
            Token::Keyword(Keyword::Int),
            Token::Id(Id::Id("main".to_string())),
            Token::Sep(Sep::LParen),
            Token::Sep(Sep::RParen),
            Token::Sep(Sep::LCurly),
            Token::Keyword(Keyword::Return),
            Token::Num(Num::DecNum(DecNum::DecNum(0))),
            Token::Sep(Sep::SemiColon),
            Token::Sep(Sep::RCurly),
        ]
    );
}
