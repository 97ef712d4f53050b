//! The tokenizer: a single forward pass over the source text with one- to
//! two-character lookahead, proved equal to the mathematical scanner in
//! [`model`].

pub mod chars;
pub mod laws;
pub mod model;
pub mod token;

use vstd::prelude::*;

verus! {

use crate::scanner::chars::{
    digit_char,
    digit_value,
    hex_digit_char,
    hex_digit_value,
    is_digit_char,
    is_hex_digit_char,
    is_letter_char,
    is_space_char,
    letter_char,
    space_char,
    word_char,
};
use crate::scanner::model::{
    dec_value,
    digits_end,
    escape_char,
    escape_of,
    hex_end,
    hex_value,
    is_operand,
    keyword_of,
    lemma_dec_value_push,
    lemma_hex_value_push,
    lemma_scan_step_bounds,
    number_token,
    scan_from,
    scan_step,
    spec_scan,
    string_body,
    word_end,
    word_token,
};
use crate::scanner::token::{token_models, AsnOp, BinOp, DecNum, Esc, HexNum, Id, Keyword,
    LexError, Num, PostOp, Sep, StrLit, Token, TokenModel, UnOp};

/// Relies on `String::push`: appends the given character to the end of
/// the string.
#[verifier::external_body]
fn push_char(s: &mut String, c: char)
    ensures
        final(s)@ == old(s)@.push(c),
{
    s.push(c)
}

/// The named escape a suffix character denotes, if any.
fn escape_lookup(c: char) -> (r: Option<Esc>)
    ensures
        r == escape_of(c),
{
    if c == 'a' {
        Some(Esc::Alert)
    } else if c == 'b' {
        Some(Esc::Backspace)
    } else if c == 'f' {
        Some(Esc::FormfeedPgBrk)
    } else if c == 'n' {
        Some(Esc::Newline)
    } else if c == 'r' {
        Some(Esc::CarriageReturn)
    } else if c == 't' {
        Some(Esc::HorizontalTab)
    } else if c == 'v' {
        Some(Esc::VerticalTab)
    } else if c == '\\' {
        Some(Esc::Backslash)
    } else if c == '\'' {
        Some(Esc::Apostrophe)
    } else if c == '"' {
        Some(Esc::DoubleQuote)
    } else {
        None
    }
}

/// The character value an escape stands for.
fn escape_value(e: Esc) -> (c: char)
    ensures
        c == escape_char(e),
{
    match e {
        Esc::Alert => '\u{7}',
        Esc::Backspace => '\u{8}',
        Esc::FormfeedPgBrk => '\u{c}',
        Esc::Newline => '\n',
        Esc::CarriageReturn => '\r',
        Esc::HorizontalTab => '\t',
        Esc::VerticalTab => '\u{b}',
        Esc::Backslash => '\\',
        Esc::Apostrophe => '\'',
        Esc::DoubleQuote => '"',
    }
}

/// Classifies a completed word against the fixed keyword table.
fn lookup_word(w: String) -> (t: Token)
    ensures
        t@ == match keyword_of(w@) {
            Some(k) => TokenModel::Keyword(k),
            None => TokenModel::Id(w@),
        },
{
    if w.eq(&"int".to_owned()) {
        Token::Keyword(Keyword::Int)
    } else if w.eq(&"bool".to_owned()) {
        Token::Keyword(Keyword::Bool)
    } else if w.eq(&"string".to_owned()) {
        Token::Keyword(Keyword::String)
    } else if w.eq(&"char".to_owned()) {
        Token::Keyword(Keyword::Char)
    } else if w.eq(&"void".to_owned()) {
        Token::Keyword(Keyword::Void)
    } else if w.eq(&"struct".to_owned()) {
        Token::Keyword(Keyword::Struct)
    } else if w.eq(&"typedef".to_owned()) {
        Token::Keyword(Keyword::Typedef)
    } else if w.eq(&"if".to_owned()) {
        Token::Keyword(Keyword::If)
    } else if w.eq(&"else".to_owned()) {
        Token::Keyword(Keyword::Else)
    } else if w.eq(&"while".to_owned()) {
        Token::Keyword(Keyword::While)
    } else if w.eq(&"for".to_owned()) {
        Token::Keyword(Keyword::For)
    } else if w.eq(&"continue".to_owned()) {
        Token::Keyword(Keyword::Continue)
    } else if w.eq(&"break".to_owned()) {
        Token::Keyword(Keyword::Break)
    } else if w.eq(&"return".to_owned()) {
        Token::Keyword(Keyword::Return)
    } else if w.eq(&"assert".to_owned()) {
        Token::Keyword(Keyword::Assert)
    } else if w.eq(&"error".to_owned()) {
        Token::Keyword(Keyword::Error)
    } else if w.eq(&"true".to_owned()) {
        Token::Keyword(Keyword::True)
    } else if w.eq(&"false".to_owned()) {
        Token::Keyword(Keyword::False)
    } else if w.eq(&"NULL".to_owned()) {
        Token::Keyword(Keyword::Null)
    } else if w.eq(&"alloc".to_owned()) {
        Token::Keyword(Keyword::Alloc)
    } else if w.eq(&"alloc_array".to_owned()) {
        Token::Keyword(Keyword::AllocArray)
    } else {
        Token::Id(Id::Id(w))
    }
}

/// Scans the word beginning at `i` and classifies it as a keyword or an
/// identifier.
fn scan_word(s: &str, n: usize, i: usize) -> (r: (Token, usize))
    requires
        n == s@.len(),
        i < n,
        is_letter_char(s@[i as int]),
    ensures
        r.0@ == word_token(s@, i as int).0,
        r.1 == word_token(s@, i as int).1,
        i < r.1 <= n,
{
    let ghost gs = s@;
    let mut k: usize = i + 1;
    while k < n && word_char(s.get_char(k))
        invariant
            n == gs.len(),
            gs == s@,
            i < k <= n,
            word_end(gs, i as int + 1) == word_end(gs, k as int),
        decreases n - k,
    {
        proof {
            assert(word_end(gs, k as int) == word_end(gs, k + 1));
        }
        k = k + 1;
    }
    proof {
        assert(word_end(gs, k as int) == k as int);
    }
    let w = s.substring_char(i, k).to_owned();
    let t = lookup_word(w);
    (t, k)
}

/// Scans the numeric literal beginning at `i`: hexadecimal after a
/// leading `0x`/`0X` with at least one hexadecimal digit, decimal
/// otherwise. A value outside the 32-bit unsigned range becomes a
/// numeric-overflow token; the whole digit run is consumed either way.
fn scan_number(s: &str, n: usize, i: usize) -> (r: (Token, usize))
    requires
        n == s@.len(),
        i < n,
        is_digit_char(s@[i as int]),
    ensures
        r.0@ == number_token(s@, i as int).0,
        r.1 == number_token(s@, i as int).1,
        i < r.1 <= n,
{
    let ghost gs = s@;
    let is_hex = s.get_char(i) == '0' && n - i > 2 && (s.get_char(i + 1) == 'x' || s.get_char(
        i + 1,
    ) == 'X') && hex_digit_char(s.get_char(i + 2));
    if is_hex {
        let mut k: usize = i + 2;
        let mut value: u64 = 0;
        let mut over: bool = false;
        while k < n && hex_digit_char(s.get_char(k))
            invariant
                n == gs.len(),
                gs == s@,
                i + 2 <= k <= n,
                hex_end(gs, i + 2) == hex_end(gs, k as int),
                !over ==> value == hex_value(gs.subrange(i + 2, k as int)) && value <= u32::MAX,
                over ==> hex_value(gs.subrange(i + 2, k as int)) > u32::MAX,
            decreases n - k,
        {
            let c = s.get_char(k);
            let d = hex_digit_val(c);
            proof {
                assert(hex_end(gs, k as int) == hex_end(gs, k + 1));
                lemma_hex_value_push(gs.subrange(i + 2, k as int), c);
                assert(gs.subrange(i + 2, k as int).push(c) =~= gs.subrange(i + 2, k + 1));
            }
            if !over {
                let nv: u64 = value * 16 + d as u64;
                if nv > u32::MAX as u64 {
                    over = true;
                } else {
                    value = nv;
                }
            }
            k = k + 1;
        }
        proof {
            assert(hex_end(gs, k as int) == k as int);
        }
        if over {
            (Token::Invalid(LexError::NumericOverflow), k)
        } else {
            (Token::Num(Num::HexNum(HexNum::HexNumber(value as u32))), k)
        }
    } else {
        let mut k: usize = i;
        let mut value: u64 = 0;
        let mut over: bool = false;
        proof {
            assert(gs.subrange(i as int, i as int) =~= Seq::empty());
        }
        while k < n && digit_char(s.get_char(k))
            invariant
                n == gs.len(),
                gs == s@,
                i <= k <= n,
                is_digit_char(gs[i as int]),
                digits_end(gs, i as int) == digits_end(gs, k as int),
                !over ==> value == dec_value(gs.subrange(i as int, k as int)) && value <= u32::MAX,
                over ==> dec_value(gs.subrange(i as int, k as int)) > u32::MAX,
            decreases n - k,
        {
            let c = s.get_char(k);
            let d = digit_val(c);
            proof {
                assert(digits_end(gs, k as int) == digits_end(gs, k + 1));
                lemma_dec_value_push(gs.subrange(i as int, k as int), c);
                assert(gs.subrange(i as int, k as int).push(c) =~= gs.subrange(i as int, k + 1));
            }
            if !over {
                let nv: u64 = value * 10 + d as u64;
                if nv > u32::MAX as u64 {
                    over = true;
                } else {
                    value = nv;
                }
            }
            k = k + 1;
        }
        proof {
            assert(digits_end(gs, k as int) == k as int);
        }
        if over {
            (Token::Invalid(LexError::NumericOverflow), k)
        } else {
            (Token::Num(Num::DecNum(DecNum::DecNum(value as u32))), k)
        }
    }
}

/// Scans the string literal whose opening quote stands at `i`, decoding
/// escapes in its body. Malformed literals become `Invalid` tokens and
/// scanning resumes just past the defect.
fn scan_string(s: &str, n: usize, i: usize) -> (r: (Token, usize))
    requires
        n == s@.len(),
        i < n,
        s@[i as int] == '"',
    ensures
        r.0@ == string_body(s@, i as int + 1, Seq::empty()).0,
        r.1 == string_body(s@, i as int + 1, Seq::empty()).1,
        i < r.1 <= n,
{
    let ghost gs = s@;
    let mut k: usize = i + 1;
    let mut acc = String::new();
    loop
        invariant
            n == gs.len(),
            gs == s@,
            i + 1 <= k <= n,
            string_body(gs, i as int + 1, Seq::empty()) == string_body(gs, k as int, acc@),
        decreases n - k,
    {
        if k == n {
            return (Token::Invalid(LexError::UnterminatedString), n);
        }
        let c = s.get_char(k);
        if c == '"' {
            return (Token::StrLit(StrLit::StringLiteral(acc)), k + 1);
        } else if c == '\\' {
            if k + 1 < n {
                match escape_lookup(s.get_char(k + 1)) {
                    Some(e) => {
                        let d = escape_value(e);
                        push_char(&mut acc, d);
                        k = k + 2;
                    },
                    None => {
                        return (Token::Invalid(LexError::UnrecognizedEscape), k + 2);
                    },
                }
            } else {
                return (Token::Invalid(LexError::UnrecognizedEscape), n);
            }
        } else {
            push_char(&mut acc, c);
            k = k + 1;
        }
    }
}

/// Scans the single token beginning at `i`, which is not whitespace.
/// `operand` tells whether the most recently emitted token was a number
/// or an identifier; it decides the reading of a bare `*` or `-`.
fn scan_token(s: &str, n: usize, i: usize, operand: bool) -> (r: (Token, usize))
    requires
        n == s@.len(),
        i < n,
        !is_space_char(s@[i as int]),
    ensures
        r.0@ == scan_step(s@, i as int, operand).0,
        r.1 == scan_step(s@, i as int, operand).1,
        i < r.1 <= n,
{
    proof {
        lemma_scan_step_bounds(s@, i as int, operand);
    }
    let c = s.get_char(i);
    if c == '(' {
        (Token::Sep(Sep::LParen), i + 1)
    } else if c == ')' {
        (Token::Sep(Sep::RParen), i + 1)
    } else if c == '[' {
        (Token::Sep(Sep::LBracket), i + 1)
    } else if c == ']' {
        (Token::Sep(Sep::RBracket), i + 1)
    } else if c == '{' {
        (Token::Sep(Sep::LCurly), i + 1)
    } else if c == '}' {
        (Token::Sep(Sep::RCurly), i + 1)
    } else if c == ',' {
        (Token::Sep(Sep::Comma), i + 1)
    } else if c == ';' {
        (Token::Sep(Sep::SemiColon), i + 1)
    } else if c == '.' {
        (Token::BinOp(BinOp::FieldSelect), i + 1)
    } else if c == '?' {
        (Token::BinOp(BinOp::CondEq), i + 1)
    } else if c == ':' {
        (Token::BinOp(BinOp::CondAsn), i + 1)
    } else if c == '~' {
        (Token::UnOp(UnOp::BitwiseNOT), i + 1)
    } else if c == '+' {
        if i + 1 < n && s.get_char(i + 1) == '=' {
            (Token::AsnOp(AsnOp::IncAsn), i + 2)
        } else if i + 1 < n && s.get_char(i + 1) == '+' {
            (Token::PostOp(PostOp::Inc), i + 2)
        } else {
            (Token::BinOp(BinOp::Plus), i + 1)
        }
    } else if c == '-' {
        if i + 1 < n && s.get_char(i + 1) == '=' {
            (Token::AsnOp(AsnOp::DecAsn), i + 2)
        } else if i + 1 < n && s.get_char(i + 1) == '-' {
            (Token::PostOp(PostOp::Dec), i + 2)
        } else if i + 1 < n && s.get_char(i + 1) == '>' {
            (Token::BinOp(BinOp::FieldDeref), i + 2)
        } else if operand {
            (Token::BinOp(BinOp::Minus), i + 1)
        } else {
            (Token::UnOp(UnOp::UnaryMinus), i + 1)
        }
    } else if c == '*' {
        if i + 1 < n && s.get_char(i + 1) == '=' {
            (Token::AsnOp(AsnOp::MultAsn), i + 2)
        } else if operand {
            (Token::BinOp(BinOp::IntTimes), i + 1)
        } else {
            (Token::UnOp(UnOp::Pointer), i + 1)
        }
    } else if c == '/' {
        if i + 1 < n && s.get_char(i + 1) == '=' {
            (Token::AsnOp(AsnOp::DivAsn), i + 2)
        } else {
            (Token::BinOp(BinOp::Divide), i + 1)
        }
    } else if c == '%' {
        if i + 1 < n && s.get_char(i + 1) == '=' {
            (Token::AsnOp(AsnOp::ModAsn), i + 2)
        } else {
            (Token::BinOp(BinOp::Modulo), i + 1)
        }
    } else if c == '<' {
        if i + 1 < n && s.get_char(i + 1) == '<' {
            if i + 2 < n && s.get_char(i + 2) == '=' {
                (Token::AsnOp(AsnOp::LShiftAsn), i + 3)
            } else {
                (Token::BinOp(BinOp::ShiftLeft), i + 2)
            }
        } else if i + 1 < n && s.get_char(i + 1) == '=' {
            (Token::BinOp(BinOp::LessEq), i + 2)
        } else {
            (Token::BinOp(BinOp::Less), i + 1)
        }
    } else if c == '>' {
        if i + 1 < n && s.get_char(i + 1) == '>' {
            if i + 2 < n && s.get_char(i + 2) == '=' {
                (Token::AsnOp(AsnOp::RShiftAsn), i + 3)
            } else {
                (Token::BinOp(BinOp::ShiftRight), i + 2)
            }
        } else if i + 1 < n && s.get_char(i + 1) == '=' {
            (Token::BinOp(BinOp::GreaterEq), i + 2)
        } else {
            (Token::BinOp(BinOp::Greater), i + 1)
        }
    } else if c == '=' {
        if i + 1 < n && s.get_char(i + 1) == '=' {
            (Token::BinOp(BinOp::Equality), i + 2)
        } else {
            (Token::AsnOp(AsnOp::EqAsn), i + 1)
        }
    } else if c == '!' {
        if i + 1 < n && s.get_char(i + 1) == '=' {
            (Token::BinOp(BinOp::Disequality), i + 2)
        } else {
            (Token::UnOp(UnOp::LogicalNOT), i + 1)
        }
    } else if c == '&' {
        if i + 1 < n && s.get_char(i + 1) == '&' {
            (Token::BinOp(BinOp::LogicalAND), i + 2)
        } else if i + 1 < n && s.get_char(i + 1) == '=' {
            (Token::AsnOp(AsnOp::ANDAsn), i + 2)
        } else {
            (Token::BinOp(BinOp::BitwiseAND), i + 1)
        }
    } else if c == '^' {
        if i + 1 < n && s.get_char(i + 1) == '=' {
            (Token::AsnOp(AsnOp::XORAsn), i + 2)
        } else {
            (Token::BinOp(BinOp::BitwiseXOR), i + 1)
        }
    } else if c == '|' {
        if i + 1 < n && s.get_char(i + 1) == '|' {
            (Token::BinOp(BinOp::LogicalOR), i + 2)
        } else if i + 1 < n && s.get_char(i + 1) == '=' {
            (Token::AsnOp(AsnOp::ORAsn), i + 2)
        } else {
            (Token::BinOp(BinOp::BitwiseOR), i + 1)
        }
    } else if c == '\\' {
        if i + 1 < n {
            match escape_lookup(s.get_char(i + 1)) {
                Some(e) => (Token::Esc(e), i + 2),
                None => (Token::Invalid(LexError::UnrecognizedEscape), i + 2),
            }
        } else {
            (Token::Invalid(LexError::UnrecognizedEscape), n)
        }
    } else if c == '"' {
        scan_string(s, n, i)
    } else if letter_char(c) {
        scan_word(s, n, i)
    } else if digit_char(c) {
        scan_number(s, n, i)
    } else {
        (Token::Invalid(LexError::UnrecognizedCharacter), i + 1)
    }
}

/// Converts raw source text into its ordered token sequence: a single
/// forward pass with bounded lookahead. Scanning is total and
/// error-tolerant — malformed constructs become `Invalid` tokens and the
/// pass continues, so one call surfaces every lexical defect.
pub fn scan(source: String) -> (tokens: Vec<Token>)
    ensures
        token_models(tokens@) == spec_scan(source@),
{
    let s = source.as_str();
    let n = s.unicode_len();
    let ghost gs = s@;
    let mut tokens: Vec<Token> = Vec::new();
    let mut operand: bool = false;
    let mut i: usize = 0;
    while i < n
        invariant
            n == gs.len(),
            gs == s@,
            gs == source@,
            i <= n,
            token_models(tokens@) + scan_from(gs, i as int, operand) == spec_scan(gs),
        decreases n - i,
    {
        let c = s.get_char(i);
        if space_char(c) {
            proof {
                assert(scan_from(gs, i as int, operand) == scan_from(gs, i + 1, operand));
            }
            i = i + 1;
        } else {
            let (tok, j) = scan_token(s, n, i, operand);
            let new_operand = match &tok {
                Token::Num(_) => true,
                Token::Id(_) => true,
                _ => false,
            };
            proof {
                assert(new_operand == is_operand(tok@));
                assert(scan_from(gs, i as int, operand) == seq![tok@] + scan_from(
                    gs,
                    j as int,
                    is_operand(tok@),
                ));
                assert(token_models(tokens@.push(tok)) =~= token_models(tokens@).push(tok@));
                assert(token_models(tokens@).push(tok@) + scan_from(gs, j as int, is_operand(tok@))
                    =~= token_models(tokens@) + scan_from(gs, i as int, operand));
            }
            tokens.push(tok);
            operand = new_operand;
            i = j;
        }
    }
    proof {
        assert(token_models(tokens@) + scan_from(gs, n as int, operand) =~= token_models(tokens@));
    }
    tokens
}

/// The numeric value of a decimal digit.
fn digit_val(c: char) -> (v: u32)
    requires
        is_digit_char(c),
    ensures
        v == digit_value(c),
        v < 10,
{
    c as u32 - '0' as u32
}

/// The numeric value of a hexadecimal digit.
fn hex_digit_val(c: char) -> (v: u32)
    requires
        is_hex_digit_char(c),
    ensures
        v == hex_digit_value(c),
        v < 16,
{
    if '0' <= c && c <= '9' {
        c as u32 - '0' as u32
    } else if 'a' <= c && c <= 'f' {
        c as u32 - 'a' as u32 + 10
    } else {
        c as u32 - 'A' as u32 + 10
    }
}

} // verus!
