//! The mathematical scanner: a recursive definition of the token sequence
//! that a source text denotes. The executable scanner is proved equal to
//! `spec_scan`, so every behavior of the pass — maximal munch, the
//! context-sensitive reading of `*` and `-`, literal scanning, escape
//! decoding and in-band error reporting — is pinned down here.

use vstd::prelude::*;

verus! {

use crate::scanner::chars::{
    digit_value,
    hex_digit_value,
    is_digit_char,
    is_hex_digit_char,
    is_letter_char,
    is_space_char,
    is_word_char,
};
use crate::scanner::token::{
    AsnOp,
    BinOp,
    DecNum,
    Esc,
    HexNum,
    Keyword,
    LexError,
    Num,
    PostOp,
    Sep,
    TokenModel,
    UnOp,
};

/// The keyword a reserved word denotes, or `None` for every other word.
pub open spec fn keyword_of(w: Seq<char>) -> Option<Keyword> {
    if w == "int"@ {
        Some(Keyword::Int)
    } else if w == "bool"@ {
        Some(Keyword::Bool)
    } else if w == "string"@ {
        Some(Keyword::String)
    } else if w == "char"@ {
        Some(Keyword::Char)
    } else if w == "void"@ {
        Some(Keyword::Void)
    } else if w == "struct"@ {
        Some(Keyword::Struct)
    } else if w == "typedef"@ {
        Some(Keyword::Typedef)
    } else if w == "if"@ {
        Some(Keyword::If)
    } else if w == "else"@ {
        Some(Keyword::Else)
    } else if w == "while"@ {
        Some(Keyword::While)
    } else if w == "for"@ {
        Some(Keyword::For)
    } else if w == "continue"@ {
        Some(Keyword::Continue)
    } else if w == "break"@ {
        Some(Keyword::Break)
    } else if w == "return"@ {
        Some(Keyword::Return)
    } else if w == "assert"@ {
        Some(Keyword::Assert)
    } else if w == "error"@ {
        Some(Keyword::Error)
    } else if w == "true"@ {
        Some(Keyword::True)
    } else if w == "false"@ {
        Some(Keyword::False)
    } else if w == "NULL"@ {
        Some(Keyword::Null)
    } else if w == "alloc"@ {
        Some(Keyword::Alloc)
    } else if w == "alloc_array"@ {
        Some(Keyword::AllocArray)
    } else {
        None
    }
}

/// The named escape a suffix character denotes, or `None` if the suffix
/// is not one of the ten standard escapes.
pub open spec fn escape_of(c: char) -> Option<Esc> {
    if c == 'a' {
        Some(Esc::Alert)
    } else if c == 'b' {
        Some(Esc::Backspace)
    } else if c == 'f' {
        Some(Esc::FormfeedPgBrk)
    } else if c == 'n' {
        Some(Esc::Newline)
    } else if c == 'r' {
        Some(Esc::CarriageReturn)
    } else if c == 't' {
        Some(Esc::HorizontalTab)
    } else if c == 'v' {
        Some(Esc::VerticalTab)
    } else if c == '\\' {
        Some(Esc::Backslash)
    } else if c == '\'' {
        Some(Esc::Apostrophe)
    } else if c == '"' {
        Some(Esc::DoubleQuote)
    } else {
        None
    }
}

/// The character value an escape stands for, used when decoding escapes
/// inside string literals.
pub open spec fn escape_char(e: Esc) -> char {
    match e {
        Esc::Alert => '\u{7}',
        Esc::Backspace => '\u{8}',
        Esc::FormfeedPgBrk => '\u{c}',
        Esc::Newline => '\n',
        Esc::CarriageReturn => '\r',
        Esc::HorizontalTab => '\t',
        Esc::VerticalTab => '\u{b}',
        Esc::Backslash => '\\',
        Esc::Apostrophe => '\'',
        Esc::DoubleQuote => '"',
    }
}

/// Where the maximal run of word characters beginning at `i` ends.
pub open spec fn word_end(s: Seq<char>, i: int) -> int
    decreases s.len() - i when 0 <= i <= s.len()
{
    if i < s.len() && is_word_char(s[i]) {
        word_end(s, i + 1)
    } else {
        i
    }
}

/// Where the maximal run of decimal digits beginning at `i` ends.
pub open spec fn digits_end(s: Seq<char>, i: int) -> int
    decreases s.len() - i when 0 <= i <= s.len()
{
    if i < s.len() && is_digit_char(s[i]) {
        digits_end(s, i + 1)
    } else {
        i
    }
}

/// Where the maximal run of hexadecimal digits beginning at `i` ends.
pub open spec fn hex_end(s: Seq<char>, i: int) -> int
    decreases s.len() - i when 0 <= i <= s.len()
{
    if i < s.len() && is_hex_digit_char(s[i]) {
        hex_end(s, i + 1)
    } else {
        i
    }
}

/// The value of a run of decimal digits, read in base 10.
pub open spec fn dec_value(ds: Seq<char>) -> int
    decreases ds.len(),
{
    if ds.len() == 0 {
        0
    } else {
        dec_value(ds.drop_last()) * 10 + digit_value(ds.last())
    }
}

/// The value of a run of hexadecimal digits, read in base 16.
pub open spec fn hex_value(ds: Seq<char>) -> int
    decreases ds.len(),
{
    if ds.len() == 0 {
        0
    } else {
        hex_value(ds.drop_last()) * 16 + hex_digit_value(ds.last())
    }
}

/// The token for the word beginning at `i`, and where it ends: the
/// alphabetic character at `i` followed by the maximal run of word
/// characters, classified as a keyword when the word is reserved and as
/// an identifier otherwise.
pub open spec fn word_token(s: Seq<char>, i: int) -> (TokenModel, int) {
    let j: int = word_end(s, i + 1);
    let w = s.subrange(i, j);
    (
        match keyword_of(w) {
            Some(k) => TokenModel::Keyword(k),
            None => TokenModel::Id(w),
        },
        j,
    )
}

/// The token for the numeric literal beginning at `i`, and where it ends.
/// A leading `0x`/`0X` with at least one hexadecimal digit begins a
/// hexadecimal literal; otherwise the maximal run of decimal digits is
/// read in base 10. A value outside the 32-bit unsigned range is reported
/// as a numeric-overflow token.
pub open spec fn number_token(s: Seq<char>, i: int) -> (TokenModel, int) {
    if s[i] == '0' && i + 2 < s.len() && (s[i + 1] == 'x' || s[i + 1] == 'X')
        && is_hex_digit_char(s[i + 2]) {
        let j: int = hex_end(s, i + 2);
        let v: int = hex_value(s.subrange(i + 2, j));
        (
            if v > u32::MAX as int {
                TokenModel::Invalid(LexError::NumericOverflow)
            } else {
                TokenModel::Num(Num::HexNum(HexNum::HexNumber(v as u32)))
            },
            j,
        )
    } else {
        let j: int = digits_end(s, i);
        let v: int = dec_value(s.subrange(i, j));
        (
            if v > u32::MAX as int {
                TokenModel::Invalid(LexError::NumericOverflow)
            } else {
                TokenModel::Num(Num::DecNum(DecNum::DecNum(v as u32)))
            },
            j,
        )
    }
}

/// The token for the string literal whose opening quote stands just
/// before `i`, with `acc` the contents decoded so far, and where scanning
/// resumes. An unescaped closing quote ends the literal; a backslash
/// triggers the escape decoder; running out of input yields an
/// unterminated-string token.
pub open spec fn string_body(s: Seq<char>, i: int, acc: Seq<char>) -> (TokenModel, int)
    decreases s.len() - i when 0 <= i <= s.len()
{
    if i >= s.len() {
        (TokenModel::Invalid(LexError::UnterminatedString), s.len() as int)
    } else if s[i] == '"' {
        (TokenModel::StrLit(acc), i + 1)
    } else if s[i] == '\\' {
        if i + 1 < s.len() {
            match escape_of(s[i + 1]) {
                Some(e) => string_body(s, i + 2, acc.push(escape_char(e))),
                None => (TokenModel::Invalid(LexError::UnrecognizedEscape), i + 2),
            }
        } else {
            (TokenModel::Invalid(LexError::UnrecognizedEscape), s.len() as int)
        }
    } else {
        string_body(s, i + 1, acc.push(s[i]))
    }
}

/// The token beginning at `i` — which is neither past the end of the
/// input nor whitespace — and where it ends. `operand` tells whether the
/// most recently emitted token was a number or an identifier; it decides
/// whether `*` reads as multiplication or dereference and whether a bare
/// `-` reads as binary or unary minus. Multi-character operators are
/// matched maximal-munch: the longest valid lexeme wins.
pub open spec fn scan_step(s: Seq<char>, i: int, operand: bool) -> (TokenModel, int) {
    let c = s[i];
    let two = i + 1 < s.len();
    if c == '(' {
        (TokenModel::Sep(Sep::LParen), i + 1)
    } else if c == ')' {
        (TokenModel::Sep(Sep::RParen), i + 1)
    } else if c == '[' {
        (TokenModel::Sep(Sep::LBracket), i + 1)
    } else if c == ']' {
        (TokenModel::Sep(Sep::RBracket), i + 1)
    } else if c == '{' {
        (TokenModel::Sep(Sep::LCurly), i + 1)
    } else if c == '}' {
        (TokenModel::Sep(Sep::RCurly), i + 1)
    } else if c == ',' {
        (TokenModel::Sep(Sep::Comma), i + 1)
    } else if c == ';' {
        (TokenModel::Sep(Sep::SemiColon), i + 1)
    } else if c == '.' {
        (TokenModel::BinOp(BinOp::FieldSelect), i + 1)
    } else if c == '?' {
        (TokenModel::BinOp(BinOp::CondEq), i + 1)
    } else if c == ':' {
        (TokenModel::BinOp(BinOp::CondAsn), i + 1)
    } else if c == '~' {
        (TokenModel::UnOp(UnOp::BitwiseNOT), i + 1)
    } else if c == '+' {
        if two && s[i + 1] == '=' {
            (TokenModel::AsnOp(AsnOp::IncAsn), i + 2)
        } else if two && s[i + 1] == '+' {
            (TokenModel::PostOp(PostOp::Inc), i + 2)
        } else {
            (TokenModel::BinOp(BinOp::Plus), i + 1)
        }
    } else if c == '-' {
        if two && s[i + 1] == '=' {
            (TokenModel::AsnOp(AsnOp::DecAsn), i + 2)
        } else if two && s[i + 1] == '-' {
            (TokenModel::PostOp(PostOp::Dec), i + 2)
        } else if two && s[i + 1] == '>' {
            (TokenModel::BinOp(BinOp::FieldDeref), i + 2)
        } else if operand {
            (TokenModel::BinOp(BinOp::Minus), i + 1)
        } else {
            (TokenModel::UnOp(UnOp::UnaryMinus), i + 1)
        }
    } else if c == '*' {
        if two && s[i + 1] == '=' {
            (TokenModel::AsnOp(AsnOp::MultAsn), i + 2)
        } else if operand {
            (TokenModel::BinOp(BinOp::IntTimes), i + 1)
        } else {
            (TokenModel::UnOp(UnOp::Pointer), i + 1)
        }
    } else if c == '/' {
        if two && s[i + 1] == '=' {
            (TokenModel::AsnOp(AsnOp::DivAsn), i + 2)
        } else {
            (TokenModel::BinOp(BinOp::Divide), i + 1)
        }
    } else if c == '%' {
        if two && s[i + 1] == '=' {
            (TokenModel::AsnOp(AsnOp::ModAsn), i + 2)
        } else {
            (TokenModel::BinOp(BinOp::Modulo), i + 1)
        }
    } else if c == '<' {
        if two && s[i + 1] == '<' {
            if i + 2 < s.len() && s[i + 2] == '=' {
                (TokenModel::AsnOp(AsnOp::LShiftAsn), i + 3)
            } else {
                (TokenModel::BinOp(BinOp::ShiftLeft), i + 2)
            }
        } else if two && s[i + 1] == '=' {
            (TokenModel::BinOp(BinOp::LessEq), i + 2)
        } else {
            (TokenModel::BinOp(BinOp::Less), i + 1)
        }
    } else if c == '>' {
        if two && s[i + 1] == '>' {
            if i + 2 < s.len() && s[i + 2] == '=' {
                (TokenModel::AsnOp(AsnOp::RShiftAsn), i + 3)
            } else {
                (TokenModel::BinOp(BinOp::ShiftRight), i + 2)
            }
        } else if two && s[i + 1] == '=' {
            (TokenModel::BinOp(BinOp::GreaterEq), i + 2)
        } else {
            (TokenModel::BinOp(BinOp::Greater), i + 1)
        }
    } else if c == '=' {
        if two && s[i + 1] == '=' {
            (TokenModel::BinOp(BinOp::Equality), i + 2)
        } else {
            (TokenModel::AsnOp(AsnOp::EqAsn), i + 1)
        }
    } else if c == '!' {
        if two && s[i + 1] == '=' {
            (TokenModel::BinOp(BinOp::Disequality), i + 2)
        } else {
            (TokenModel::UnOp(UnOp::LogicalNOT), i + 1)
        }
    } else if c == '&' {
        if two && s[i + 1] == '&' {
            (TokenModel::BinOp(BinOp::LogicalAND), i + 2)
        } else if two && s[i + 1] == '=' {
            (TokenModel::AsnOp(AsnOp::ANDAsn), i + 2)
        } else {
            (TokenModel::BinOp(BinOp::BitwiseAND), i + 1)
        }
    } else if c == '^' {
        if two && s[i + 1] == '=' {
            (TokenModel::AsnOp(AsnOp::XORAsn), i + 2)
        } else {
            (TokenModel::BinOp(BinOp::BitwiseXOR), i + 1)
        }
    } else if c == '|' {
        if two && s[i + 1] == '|' {
            (TokenModel::BinOp(BinOp::LogicalOR), i + 2)
        } else if two && s[i + 1] == '=' {
            (TokenModel::AsnOp(AsnOp::ORAsn), i + 2)
        } else {
            (TokenModel::BinOp(BinOp::BitwiseOR), i + 1)
        }
    } else if c == '\\' {
        if two {
            match escape_of(s[i + 1]) {
                Some(e) => (TokenModel::Esc(e), i + 2),
                None => (TokenModel::Invalid(LexError::UnrecognizedEscape), i + 2),
            }
        } else {
            (TokenModel::Invalid(LexError::UnrecognizedEscape), s.len() as int)
        }
    } else if c == '"' {
        string_body(s, i + 1, Seq::empty())
    } else if is_letter_char(c) {
        word_token(s, i)
    } else if is_digit_char(c) {
        number_token(s, i)
    } else {
        (TokenModel::Invalid(LexError::UnrecognizedCharacter), i + 1)
    }
}

/// Whether a token counts as an operand for the purpose of reading a
/// following `*` or `-` as a binary operator.
pub open spec fn is_operand(t: TokenModel) -> bool {
    t is Num || t is Id
}

/// The tokens of the text from position `i` on, with `operand` telling
/// whether the most recently emitted token was a number or an identifier.
pub open spec fn scan_from(s: Seq<char>, i: int, operand: bool) -> Seq<TokenModel>
    decreases s.len() - i when 0 <= i <= s.len()
{
    if i >= s.len() {
        Seq::empty()
    } else if is_space_char(s[i]) {
        scan_from(s, i + 1, operand)
    } else {
        let (t, j): (TokenModel, int) = scan_step(s, i, operand);
        proof {
            lemma_scan_step_bounds(s, i, operand);
        }
        seq![t] + scan_from(s, j, is_operand(t))
    }
}

/// The full token sequence of a source text.
pub open spec fn spec_scan(s: Seq<char>) -> Seq<TokenModel> {
    scan_from(s, 0, false)
}

pub proof fn lemma_word_end_bounds(s: Seq<char>, i: int)
    requires
        0 <= i <= s.len(),
    ensures
        i <= word_end(s, i) <= s.len(),
    decreases s.len() - i,
{
    if i < s.len() && is_word_char(s[i]) {
        lemma_word_end_bounds(s, i + 1);
    }
}

pub proof fn lemma_digits_end_bounds(s: Seq<char>, i: int)
    requires
        0 <= i <= s.len(),
    ensures
        i <= digits_end(s, i) <= s.len(),
    decreases s.len() - i,
{
    if i < s.len() && is_digit_char(s[i]) {
        lemma_digits_end_bounds(s, i + 1);
    }
}

pub proof fn lemma_hex_end_bounds(s: Seq<char>, i: int)
    requires
        0 <= i <= s.len(),
    ensures
        i <= hex_end(s, i) <= s.len(),
    decreases s.len() - i,
{
    if i < s.len() && is_hex_digit_char(s[i]) {
        lemma_hex_end_bounds(s, i + 1);
    }
}

pub proof fn lemma_string_body_bounds(s: Seq<char>, i: int, acc: Seq<char>)
    requires
        0 <= i <= s.len(),
    ensures
        i <= string_body(s, i, acc).1 <= s.len(),
    decreases s.len() - i,
{
    if i >= s.len() {
    } else if s[i] == '"' {
    } else if s[i] == '\\' {
        if i + 1 < s.len() {
            match escape_of(s[i + 1]) {
                Some(e) => lemma_string_body_bounds(s, i + 2, acc.push(escape_char(e))),
                None => {},
            }
        }
    } else {
        lemma_string_body_bounds(s, i + 1, acc.push(s[i]));
    }
}

/// A run made entirely of word characters ends only at the end of the
/// input.
pub proof fn lemma_word_end_all(s: Seq<char>, i: int)
    requires
        0 <= i <= s.len(),
        forall|k: int| i <= k < s.len() ==> is_word_char(s[k]),
    ensures
        word_end(s, i) == s.len(),
    decreases s.len() - i,
{
    if i < s.len() {
        assert(is_word_char(s[i]));
        lemma_word_end_all(s, i + 1);
    }
}

/// A run made entirely of decimal digits ends only at the end of the
/// input.
pub proof fn lemma_digits_end_all(s: Seq<char>, i: int)
    requires
        0 <= i <= s.len(),
        forall|k: int| i <= k < s.len() ==> is_digit_char(s[k]),
    ensures
        digits_end(s, i) == s.len(),
    decreases s.len() - i,
{
    if i < s.len() {
        assert(is_digit_char(s[i]));
        lemma_digits_end_all(s, i + 1);
    }
}

/// Reading one more digit multiplies the value so far by the base and
/// adds the digit.
pub proof fn lemma_dec_value_push(ds: Seq<char>, c: char)
    ensures
        dec_value(ds.push(c)) == dec_value(ds) * 10 + digit_value(c),
{
    assert(ds.push(c).drop_last() =~= ds);
    assert(ds.push(c).last() == c);
}

pub proof fn lemma_hex_value_push(ds: Seq<char>, c: char)
    ensures
        hex_value(ds.push(c)) == hex_value(ds) * 16 + hex_digit_value(c),
{
    assert(ds.push(c).drop_last() =~= ds);
    assert(ds.push(c).last() == c);
}

/// A token step always consumes at least one character and never runs
/// past the end of the input.
pub proof fn lemma_scan_step_bounds(s: Seq<char>, i: int, operand: bool)
    requires
        0 <= i < s.len(),
        !is_space_char(s[i]),
    ensures
        i < scan_step(s, i, operand).1 <= s.len(),
{
    let c = s[i];
    if c == '"' {
        lemma_string_body_bounds(s, i + 1, Seq::empty());
    }
    if is_letter_char(c) {
        lemma_word_end_bounds(s, i + 1);
    }
    if is_digit_char(c) {
        lemma_digits_end_bounds(s, i + 1);
        assert(digits_end(s, i) == digits_end(s, i + 1));
        if i + 2 < s.len() {
            lemma_hex_end_bounds(s, i + 2);
        }
    }
}

} // verus!
