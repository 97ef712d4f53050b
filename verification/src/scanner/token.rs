//! The token data model: a closed, tagged taxonomy of lexical categories.
//!
//! Every token belongs to exactly one category and is immutable once
//! produced. `TokenModel` is the mathematical view of a `Token`: text
//! payloads become `Seq<char>`, everything else is carried unchanged.

use vstd::prelude::*;

verus! {

/// A classified unit of lexical output.
#[derive(Debug, PartialEq, Eq)]
pub enum Token {
    Id(Id),
    Num(Num),
    StrLit(StrLit),
    ChrLit(ChrLit),
    LibLit(LibLit),
    SChar(SChar),
    CChar(CChar),
    Sep(Sep),
    UnOp(UnOp),
    BinOp(BinOp),
    AsnOp(AsnOp),
    PostOp(PostOp),
    Keyword(Keyword),
    Esc(Esc),
    Invalid(LexError),
}

/// The fixed table of reserved words.
#[derive(Debug, PartialEq, Eq, Clone, Copy)]
pub enum Keyword {
    Int,
    Bool,
    String,
    Char,
    Void,
    Struct,
    Typedef,
    If,
    Else,
    While,
    For,
    Continue,
    Break,
    Return,
    Assert,
    Error,
    True,
    False,
    Null,
    Alloc,
    AllocArray,
}

#[derive(Debug, PartialEq, Eq)]
pub enum Id {
    Id(String),
}

/// A numeric literal; hexadecimal literals share the 32-bit unsigned
/// value space of decimal ones.
#[derive(Debug, PartialEq, Eq, Clone, Copy)]
pub enum Num {
    DecNum(DecNum),
    HexNum(HexNum),
}

#[derive(Debug, PartialEq, Eq, Clone, Copy)]
pub enum DecNum {
    DecNum(u32),
}

#[derive(Debug, PartialEq, Eq, Clone, Copy)]
pub enum HexNum {
    HexNumber(u32),
}

#[derive(Debug, PartialEq, Eq)]
pub enum StrLit {
    StringLiteral(String),
}

#[derive(Debug, PartialEq, Eq)]
pub enum ChrLit {
    CharacterLiteral(char),
}

#[derive(Debug, PartialEq, Eq)]
pub enum LibLit {
    LibraryLiteral(String),
}

#[derive(Debug, PartialEq, Eq, Clone, Copy)]
pub enum SChar {
    Esc,
    Nchar,
}

#[derive(Debug, PartialEq, Eq, Clone, Copy)]
pub enum CChar {
    Esc,
    LChar,
}

/// Any character except a double quote.
#[derive(Debug, PartialEq, Eq, Clone, Copy)]
pub enum NChar {
    NChar(char),
}

/// Any character except a closing angle bracket.
#[derive(Debug, PartialEq, Eq, Clone, Copy)]
pub enum LChar {
    LChar(char),
}

/// The ten named escape sequences.
#[derive(Debug, PartialEq, Eq, Clone, Copy)]
pub enum Esc {
    Alert,
    Backspace,
    FormfeedPgBrk,
    Newline,
    CarriageReturn,
    HorizontalTab,
    VerticalTab,
    Backslash,
    Apostrophe,
    DoubleQuote,
}

#[derive(Debug, PartialEq, Eq, Clone, Copy)]
pub enum Sep {
    LParen,
    RParen,
    LBracket,
    RBracket,
    LCurly,
    RCurly,
    Comma,
    SemiColon,
}

#[derive(Debug, PartialEq, Eq, Clone, Copy)]
pub enum UnOp {
    LogicalNOT,
    BitwiseNOT,
    UnaryMinus,
    Pointer,
}

#[derive(Debug, PartialEq, Eq, Clone, Copy)]
pub enum BinOp {
    CondEq,
    FieldSelect,
    FieldDeref,
    IntTimes,
    Divide,
    Modulo,
    Plus,
    Minus,
    ShiftLeft,
    Less,
    LessEq,
    ShiftRight,
    Greater,
    GreaterEq,
    Equality,
    BitwiseAND,
    LogicalAND,
    BitwiseXOR,
    Disequality,
    BitwiseOR,
    LogicalOR,
    CondAsn,
}

#[derive(Debug, PartialEq, Eq, Clone, Copy)]
pub enum AsnOp {
    EqAsn,
    IncAsn,
    DecAsn,
    MultAsn,
    DivAsn,
    ModAsn,
    LShiftAsn,
    RShiftAsn,
    ANDAsn,
    XORAsn,
    ORAsn,
}

#[derive(Debug, PartialEq, Eq, Clone, Copy)]
pub enum PostOp {
    Inc,
    Dec,
}

/// Why a stretch of input failed to form a token. Scanning never aborts:
/// each lexical error is embedded in the output as `Token::Invalid`.
#[derive(Debug, PartialEq, Eq, Clone, Copy)]
pub enum LexError {
    UnterminatedString,
    UnrecognizedEscape,
    NumericOverflow,
    UnrecognizedCharacter,
}

impl LexError {
    /// The reason as text, for reporting to the end user.
    pub open spec fn reason_text(self) -> Seq<char> {
        match self {
            LexError::UnterminatedString => "unterminated string literal"@,
            LexError::UnrecognizedEscape => "unrecognized escape sequence"@,
            LexError::NumericOverflow => "numeric literal overflow"@,
            LexError::UnrecognizedCharacter => "unrecognized character"@,
        }
    }

    /// Renders the reason for this lexical error.
    pub fn reason(&self) -> (r: String)
        ensures
            r@ == self.reason_text(),
    {
        match self {
            LexError::UnterminatedString => "unterminated string literal".to_owned(),
            LexError::UnrecognizedEscape => "unrecognized escape sequence".to_owned(),
            LexError::NumericOverflow => "numeric literal overflow".to_owned(),
            LexError::UnrecognizedCharacter => "unrecognized character".to_owned(),
        }
    }
}

/// The mathematical value of a token: text payloads as character
/// sequences, all other categories unchanged.
pub enum TokenModel {
    Id(Seq<char>),
    Num(Num),
    StrLit(Seq<char>),
    ChrLit(char),
    LibLit(Seq<char>),
    SChar(SChar),
    CChar(CChar),
    Sep(Sep),
    UnOp(UnOp),
    BinOp(BinOp),
    AsnOp(AsnOp),
    PostOp(PostOp),
    Keyword(Keyword),
    Esc(Esc),
    Invalid(LexError),
}

impl View for Token {
    type V = TokenModel;

    open spec fn view(&self) -> TokenModel {
        match self {
            Token::Id(Id::Id(s)) => TokenModel::Id(s@),
            Token::Num(n) => TokenModel::Num(*n),
            Token::StrLit(StrLit::StringLiteral(s)) => TokenModel::StrLit(s@),
            Token::ChrLit(ChrLit::CharacterLiteral(c)) => TokenModel::ChrLit(*c),
            Token::LibLit(LibLit::LibraryLiteral(s)) => TokenModel::LibLit(s@),
            Token::SChar(x) => TokenModel::SChar(*x),
            Token::CChar(x) => TokenModel::CChar(*x),
            Token::Sep(x) => TokenModel::Sep(*x),
            Token::UnOp(x) => TokenModel::UnOp(*x),
            Token::BinOp(x) => TokenModel::BinOp(*x),
            Token::AsnOp(x) => TokenModel::AsnOp(*x),
            Token::PostOp(x) => TokenModel::PostOp(*x),
            Token::Keyword(x) => TokenModel::Keyword(*x),
            Token::Esc(x) => TokenModel::Esc(*x),
            Token::Invalid(e) => TokenModel::Invalid(*e),
        }
    }
}

/// The views of a token sequence, in order.
pub open spec fn token_models(ts: Seq<Token>) -> Seq<TokenModel> {
    ts.map_values(|t: Token| t@)
}

} // verus!
