//! General laws of the scanner, proved once and for all over the
//! mathematical model. Each law quantifies over inputs — concrete
//! instances of the same statements live in the test suite.

use vstd::prelude::*;

verus! {

use crate::scanner::chars::{is_digit_char, is_letter_char, is_space_char, is_word_char};
use crate::scanner::model::{
    dec_value,
    escape_of,
    is_operand,
    keyword_of,
    lemma_digits_end_all,
    lemma_word_end_all,
    scan_from,
    scan_step,
    spec_scan,
    string_body,
};
use crate::scanner::token::{
    AsnOp,
    BinOp,
    DecNum,
    LexError,
    Num,
    PostOp,
    TokenModel,
    UnOp,
};

/// An input whose single token covers the whole text scans to exactly
/// that token.
proof fn lemma_single_token(s: Seq<char>, t: TokenModel)
    requires
        s.len() > 0,
        !is_space_char(s[0]),
        scan_step(s, 0, false) == (t, s.len() as int),
    ensures
        spec_scan(s) == seq![t],
{
    assert(scan_from(s, s.len() as int, is_operand(t)) =~= Seq::empty());
    assert(seq![t] + Seq::<TokenModel>::empty() =~= seq![t]);
}

/// The token a multi-character operator lexeme denotes, or `None` for
/// any other text.
pub open spec fn multi_char_operator(w: Seq<char>) -> Option<TokenModel> {
    if w == "+="@ {
        Some(TokenModel::AsnOp(AsnOp::IncAsn))
    } else if w == "++"@ {
        Some(TokenModel::PostOp(PostOp::Inc))
    } else if w == "-="@ {
        Some(TokenModel::AsnOp(AsnOp::DecAsn))
    } else if w == "--"@ {
        Some(TokenModel::PostOp(PostOp::Dec))
    } else if w == "->"@ {
        Some(TokenModel::BinOp(BinOp::FieldDeref))
    } else if w == "*="@ {
        Some(TokenModel::AsnOp(AsnOp::MultAsn))
    } else if w == "/="@ {
        Some(TokenModel::AsnOp(AsnOp::DivAsn))
    } else if w == "%="@ {
        Some(TokenModel::AsnOp(AsnOp::ModAsn))
    } else if w == "<<"@ {
        Some(TokenModel::BinOp(BinOp::ShiftLeft))
    } else if w == "<<="@ {
        Some(TokenModel::AsnOp(AsnOp::LShiftAsn))
    } else if w == "<="@ {
        Some(TokenModel::BinOp(BinOp::LessEq))
    } else if w == ">>"@ {
        Some(TokenModel::BinOp(BinOp::ShiftRight))
    } else if w == ">>="@ {
        Some(TokenModel::AsnOp(AsnOp::RShiftAsn))
    } else if w == ">="@ {
        Some(TokenModel::BinOp(BinOp::GreaterEq))
    } else if w == "=="@ {
        Some(TokenModel::BinOp(BinOp::Equality))
    } else if w == "!="@ {
        Some(TokenModel::BinOp(BinOp::Disequality))
    } else if w == "&&"@ {
        Some(TokenModel::BinOp(BinOp::LogicalAND))
    } else if w == "&="@ {
        Some(TokenModel::AsnOp(AsnOp::ANDAsn))
    } else if w == "^="@ {
        Some(TokenModel::AsnOp(AsnOp::XORAsn))
    } else if w == "||"@ {
        Some(TokenModel::BinOp(BinOp::LogicalOR))
    } else if w == "|="@ {
        Some(TokenModel::AsnOp(AsnOp::ORAsn))
    } else {
        None
    }
}

/// Maximal munch: scanning the full text of any multi-character operator
/// lexeme yields exactly one token, of the longest matching kind — never
/// a sequence of shorter-operator tokens.
pub proof fn lemma_maximal_munch(w: Seq<char>, t: TokenModel)
    requires
        multi_char_operator(w) == Some(t),
    ensures
        spec_scan(w) == seq![t],
{
    reveal_strlit("+=");
    reveal_strlit("++");
    reveal_strlit("-=");
    reveal_strlit("--");
    reveal_strlit("->");
    reveal_strlit("*=");
    reveal_strlit("/=");
    reveal_strlit("%=");
    reveal_strlit("<<");
    reveal_strlit("<<=");
    reveal_strlit("<=");
    reveal_strlit(">>");
    reveal_strlit(">>=");
    reveal_strlit(">=");
    reveal_strlit("==");
    reveal_strlit("!=");
    reveal_strlit("&&");
    reveal_strlit("&=");
    reveal_strlit("^=");
    reveal_strlit("||");
    reveal_strlit("|=");
    assert(scan_step(w, 0, false) == (t, w.len() as int));
    lemma_single_token(w, t);
}

/// Keyword/identifier partition: a word opening with an alphabetic
/// character and continuing with word characters scans to a single
/// keyword token when it is one of the reserved words, and to a single
/// identifier token carrying the word itself otherwise.
pub proof fn lemma_keyword_identifier_partition(w: Seq<char>)
    requires
        w.len() > 0,
        is_letter_char(w[0]),
        forall|k: int| 1 <= k < w.len() ==> is_word_char(w[k]),
    ensures
        keyword_of(w) matches Some(k) ==> spec_scan(w) == seq![TokenModel::Keyword(k)],
        keyword_of(w) is None ==> spec_scan(w) == seq![TokenModel::Id(w)],
{
    lemma_word_end_all(w, 1);
    assert(w.subrange(0, w.len() as int) =~= w);
    match keyword_of(w) {
        Some(k) => {
            assert(scan_step(w, 0, false) == (TokenModel::Keyword(k), w.len() as int));
            lemma_single_token(w, TokenModel::Keyword(k));
        },
        None => {
            assert(scan_step(w, 0, false) == (TokenModel::Id(w), w.len() as int));
            lemma_single_token(w, TokenModel::Id(w));
        },
    }
}

/// Disambiguation of `*`: a bare star reads as integer multiplication
/// exactly when the most recently emitted token was a number or an
/// identifier, and as the dereference operator otherwise.
pub proof fn lemma_star_disambiguation(s: Seq<char>, i: int, operand: bool)
    requires
        0 <= i < s.len(),
        s[i] == '*',
        !(i + 1 < s.len() && s[i + 1] == '='),
    ensures
        scan_from(s, i, operand) == seq![
            if operand {
                TokenModel::BinOp(BinOp::IntTimes)
            } else {
                TokenModel::UnOp(UnOp::Pointer)
            },
        ] + scan_from(s, i + 1, false),
{
}

/// Disambiguation of a bare `-`, mirroring the policy for `*`: binary
/// minus after a number or an identifier, unary minus otherwise.
pub proof fn lemma_minus_disambiguation(s: Seq<char>, i: int, operand: bool)
    requires
        0 <= i < s.len(),
        s[i] == '-',
        !(i + 1 < s.len() && (s[i + 1] == '=' || s[i + 1] == '-' || s[i + 1] == '>')),
    ensures
        scan_from(s, i, operand) == seq![
            if operand {
                TokenModel::BinOp(BinOp::Minus)
            } else {
                TokenModel::UnOp(UnOp::UnaryMinus)
            },
        ] + scan_from(s, i + 1, false),
{
}

proof fn lemma_string_body_plain(s: Seq<char>, i: int, j: int, acc: Seq<char>)
    requires
        0 <= i <= j < s.len(),
        s[j] == '"',
        forall|k: int| i <= k < j ==> s[k] != '"' && s[k] != '\\',
    ensures
        string_body(s, i, acc) == (TokenModel::StrLit(acc + s.subrange(i, j)), j + 1),
    decreases j - i,
{
    if i == j {
        assert(acc + s.subrange(i, j) =~= acc);
    } else {
        lemma_string_body_plain(s, i + 1, j, acc.push(s[i]));
        assert(acc.push(s[i]) + s.subrange(i + 1, j) =~= acc + s.subrange(i, j));
    }
}

proof fn lemma_string_body_missing(s: Seq<char>, i: int, acc: Seq<char>)
    requires
        0 <= i <= s.len(),
        forall|k: int| i <= k < s.len() ==> s[k] != '"' && s[k] != '\\',
    ensures
        string_body(s, i, acc) == (
            TokenModel::Invalid(LexError::UnterminatedString),
            s.len() as int,
        ),
    decreases s.len() - i,
{
    if i < s.len() {
        lemma_string_body_missing(s, i + 1, acc.push(s[i]));
    }
}

/// String literal round trip: quoting any contents free of quotes and
/// backslashes scans back to a single string-literal token carrying
/// exactly those contents.
pub proof fn lemma_string_literal_round_trip(w: Seq<char>)
    requires
        forall|k: int| 0 <= k < w.len() ==> w[k] != '"' && w[k] != '\\',
    ensures
        spec_scan(seq!['"'] + w + seq!['"']) == seq![TokenModel::StrLit(w)],
{
    let s = seq!['"'] + w + seq!['"'];
    assert(s.len() == w.len() + 2);
    assert(s[0] == '"');
    assert(s[s.len() - 1] == '"');
    assert forall|k: int| 1 <= k < s.len() - 1 implies s[k] != '"' && s[k] != '\\' by {
        assert(s[k] == w[k - 1]);
    }
    lemma_string_body_plain(s, 1, s.len() - 1, Seq::empty());
    assert(Seq::<char>::empty() + s.subrange(1, s.len() - 1) =~= w);
    assert(scan_step(s, 0, false) == (TokenModel::StrLit(w), s.len() as int));
    lemma_single_token(s, TokenModel::StrLit(w));
}

/// A string literal whose closing quote never comes scans to a single
/// unterminated-string token, whatever its partial contents.
pub proof fn lemma_unterminated_string(w: Seq<char>)
    requires
        forall|k: int| 0 <= k < w.len() ==> w[k] != '"' && w[k] != '\\',
    ensures
        spec_scan(seq!['"'] + w) == seq![TokenModel::Invalid(LexError::UnterminatedString)],
{
    let s = seq!['"'] + w;
    assert(s[0] == '"');
    assert forall|k: int| 1 <= k < s.len() implies s[k] != '"' && s[k] != '\\' by {
        assert(s[k] == w[k - 1]);
    }
    lemma_string_body_missing(s, 1, Seq::empty());
    assert(scan_step(s, 0, false) == (
        TokenModel::Invalid(LexError::UnterminatedString),
        s.len() as int,
    ));
    lemma_single_token(s, TokenModel::Invalid(LexError::UnterminatedString));
}

/// Numeric bounds: a run of decimal digits scans to a single decimal
/// number token carrying its base-10 value when that value fits in 32
/// unsigned bits, and to a single numeric-overflow token when it does
/// not.
pub proof fn lemma_numeric_bounds(w: Seq<char>)
    requires
        w.len() > 0,
        forall|k: int| 0 <= k < w.len() ==> is_digit_char(w[k]),
    ensures
        dec_value(w) <= u32::MAX as int ==> spec_scan(w) == seq![
            TokenModel::Num(Num::DecNum(DecNum::DecNum(dec_value(w) as u32))),
        ],
        dec_value(w) > u32::MAX as int ==> spec_scan(w) == seq![
            TokenModel::Invalid(LexError::NumericOverflow),
        ],
{
    lemma_digits_end_all(w, 0);
    assert(w.subrange(0, w.len() as int) =~= w);
    if dec_value(w) <= u32::MAX as int {
        assert(scan_step(w, 0, false) == (
            TokenModel::Num(Num::DecNum(DecNum::DecNum(dec_value(w) as u32))),
            w.len() as int,
        ));
        lemma_single_token(w, TokenModel::Num(Num::DecNum(DecNum::DecNum(dec_value(w) as u32))));
    } else {
        assert(scan_step(w, 0, false) == (
            TokenModel::Invalid(LexError::NumericOverflow),
            w.len() as int,
        ));
        lemma_single_token(w, TokenModel::Invalid(LexError::NumericOverflow));
    }
}

/// Escape coverage: a backslash followed by any one character scans to
/// the matching named escape token when the suffix is one of the ten
/// escapes, and to a single unrecognized-escape token otherwise.
pub proof fn lemma_escape_coverage(c: char)
    ensures
        escape_of(c) matches Some(e) ==> spec_scan(seq!['\\', c]) == seq![TokenModel::Esc(e)],
        escape_of(c) is None ==> spec_scan(seq!['\\', c]) == seq![
            TokenModel::Invalid(LexError::UnrecognizedEscape),
        ],
{
    let s = seq!['\\', c];
    assert(s[0] == '\\');
    match escape_of(c) {
        Some(e) => {
            assert(scan_step(s, 0, false) == (TokenModel::Esc(e), 2int));
            lemma_single_token(s, TokenModel::Esc(e));
        },
        None => {
            assert(scan_step(s, 0, false) == (
                TokenModel::Invalid(LexError::UnrecognizedEscape),
                2int,
            ));
            lemma_single_token(s, TokenModel::Invalid(LexError::UnrecognizedEscape));
        },
    }
}

} // verus!
