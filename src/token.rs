//! Lexical kinds, their syntactic categories and operator meanings, and tokens.
use vstd::prelude::*;

verus! {

/// Category of a lexical kind, as seen by the parser.
#[derive(Debug, Clone, Copy, PartialEq, Eq, Structural)]
pub enum SyntaxKind {
    Infix,
    Prefix,
    Postfix,
    Open,
    Close,
    Trivia,
    Kw,
    Atom,
    Ident,
    Error,
    Root,
    Eof,
}

/// Every lexical kind of the language, plus the markers the parser adds.
///
/// `Add` and `Neg` are never produced by the lexer: the parser turns a prefix
/// `Minus` into `Neg`.
#[derive(Debug, Clone, Copy, PartialEq, Eq, Structural)]
pub enum Syntax {
    Cr,
    Whitespace,
    Comment,
    Bool,
    Integer,
    Float,
    Decimal,
    Date,
    Time,
    DateTime,
    String,
    FnKw,
    LetKw,
    VarKw,
    IfKw,
    ElseKw,
    DoKw,
    EndKw,
    Ident,
    Point,
    Comma,
    Semicolon,
    Question,
    Plus,
    Add,
    Minus,
    Neg,
    Star,
    Slash,
    Assign,
    Equals,
    NotEquals,
    Less,
    LessThan,
    Greater,
    GreaterThan,
    AndKw,
    OrKw,
    NotKw,
    LParen,
    RParen,
    LBrace,
    RBrace,
    LSquare,
    RSquare,
    Root,
    Eof,
    Error,
}

#[derive(Debug, Clone, Copy, PartialEq, Eq, Structural)]
pub enum CmpOp {
    Equals,
    NotEquals,
    Less,
    Greater,
}

#[derive(Debug, Clone, Copy, PartialEq, Eq, Structural)]
pub enum BinaryOp {
    Add,
    Sub,
    Mul,
    Div,
}

#[derive(Debug, Clone, Copy, PartialEq, Eq, Structural)]
pub enum SepOp {
    Comma,
    Semicolon,
}

#[derive(Debug, Clone, Copy, PartialEq, Eq, Structural)]
pub enum UnaryOp {
    Neg,
}

/// Position of a token in the stream of its file.
#[derive(Debug, Clone, Copy, PartialEq, Eq, Structural)]
pub struct TokenId(pub usize);

/// Half-open byte range `start..end` into a source text.
#[derive(Debug, Clone, Copy, PartialEq, Eq, Structural)]
pub struct TextRange {
    pub start: usize,
    pub end: usize,
}

/// One lexed token: its kind, its byte range, its 1-based line and the byte
/// offset of its start within that line.
#[derive(Debug, Clone, Copy, PartialEq, Eq, Structural)]
pub struct Token {
    pub file_id: usize,
    pub id: TokenId,
    pub kind: Syntax,
    pub range: TextRange,
    pub line: usize,
    pub col: usize,
}

/// The category of each kind; total and independent of context.
pub open spec fn category(k: Syntax) -> SyntaxKind {
    match k {
        Syntax::Cr | Syntax::Whitespace | Syntax::Comment => SyntaxKind::Trivia,
        Syntax::Bool | Syntax::Integer | Syntax::Float | Syntax::Decimal | Syntax::String
        | Syntax::Date | Syntax::Time | Syntax::DateTime | Syntax::Ident => SyntaxKind::Atom,
        Syntax::FnKw | Syntax::LetKw | Syntax::VarKw | Syntax::IfKw | Syntax::ElseKw
        | Syntax::DoKw | Syntax::EndKw => SyntaxKind::Kw,
        Syntax::Point | Syntax::Assign | Syntax::Question | Syntax::Plus | Syntax::Minus
        | Syntax::Star | Syntax::Slash | Syntax::Comma | Syntax::Semicolon | Syntax::Equals
        | Syntax::NotEquals | Syntax::Less | Syntax::LessThan | Syntax::Greater
        | Syntax::GreaterThan | Syntax::AndKw | Syntax::OrKw | Syntax::NotKw => SyntaxKind::Infix,
        Syntax::Neg | Syntax::Add => SyntaxKind::Prefix,
        Syntax::LParen | Syntax::LBrace | Syntax::LSquare => SyntaxKind::Open,
        Syntax::RParen | Syntax::RBrace | Syntax::RSquare => SyntaxKind::Close,
        Syntax::Error => SyntaxKind::Error,
        Syntax::Eof => SyntaxKind::Eof,
        Syntax::Root => SyntaxKind::Root,
    }
}

pub open spec fn bin_op_of(k: Syntax) -> Option<BinaryOp> {
    match k {
        Syntax::Plus => Some(BinaryOp::Add),
        Syntax::Minus => Some(BinaryOp::Sub),
        Syntax::Star => Some(BinaryOp::Mul),
        Syntax::Slash => Some(BinaryOp::Div),
        _ => None,
    }
}

pub open spec fn unary_op_of(k: Syntax) -> Option<UnaryOp> {
    match k {
        Syntax::Neg => Some(UnaryOp::Neg),
        _ => None,
    }
}

pub open spec fn is_separator(k: Syntax) -> bool {
    k == Syntax::Comma || k == Syntax::Semicolon
}

impl Syntax {
    pub fn is(self) -> (r: SyntaxKind)
        ensures
            r == category(self),
    {
        match self {
            Syntax::Cr | Syntax::Whitespace | Syntax::Comment => SyntaxKind::Trivia,
            Syntax::Bool | Syntax::Integer | Syntax::Float | Syntax::Decimal | Syntax::String
            | Syntax::Date | Syntax::Time | Syntax::DateTime => SyntaxKind::Atom,
            Syntax::Ident => SyntaxKind::Atom,
            Syntax::FnKw | Syntax::LetKw | Syntax::VarKw | Syntax::IfKw | Syntax::ElseKw
            | Syntax::DoKw | Syntax::EndKw => SyntaxKind::Kw,
            Syntax::Point | Syntax::Assign | Syntax::Question | Syntax::Plus | Syntax::Minus
            | Syntax::Star | Syntax::Slash | Syntax::Comma | Syntax::Semicolon
            | Syntax::Equals | Syntax::NotEquals | Syntax::Less | Syntax::LessThan
            | Syntax::Greater | Syntax::GreaterThan | Syntax::AndKw | Syntax::OrKw
            | Syntax::NotKw => SyntaxKind::Infix,
            Syntax::Neg | Syntax::Add => SyntaxKind::Prefix,
            Syntax::LParen | Syntax::LBrace | Syntax::LSquare => SyntaxKind::Open,
            Syntax::RParen | Syntax::RBrace | Syntax::RSquare => SyntaxKind::Close,
            Syntax::Error => SyntaxKind::Error,
            Syntax::Eof => SyntaxKind::Eof,
            Syntax::Root => SyntaxKind::Root,
        }
    }

    /// A kind heads a subtree unless it is an atom.
    pub fn is_head_tree(self) -> (r: bool)
        ensures
            r == (category(self) != SyntaxKind::Atom),
    {
        self.is() != SyntaxKind::Atom
    }

    pub fn to_bin_op(self) -> (r: Option<BinaryOp>)
        ensures
            r == bin_op_of(self),
    {
        match self {
            Syntax::Plus => Some(BinaryOp::Add),
            Syntax::Minus => Some(BinaryOp::Sub),
            Syntax::Star => Some(BinaryOp::Mul),
            Syntax::Slash => Some(BinaryOp::Div),
            _ => None,
        }
    }

    pub fn to_unary_op(self) -> (r: Option<UnaryOp>)
        ensures
            r == unary_op_of(self),
    {
        match self {
            Syntax::Neg => Some(UnaryOp::Neg),
            _ => None,
        }
    }

    /// An operator: a binary or unary operator, or member access.
    pub fn is_op(self) -> (r: bool)
        ensures
            r == (unary_op_of(self) is Some || bin_op_of(self) is Some || self == Syntax::Point),
    {
        self.to_unary_op().is_some() || self.to_bin_op().is_some() || matches!(self, Syntax::Point)
    }

    /// Only defined on the two separator kinds.
    pub fn to_separator(self) -> (r: SepOp)
        requires
            is_separator(self),
        ensures
            self == Syntax::Comma ==> r == SepOp::Comma,
            self == Syntax::Semicolon ==> r == SepOp::Semicolon,
    {
        match self {
            Syntax::Comma => SepOp::Comma,
            _ => SepOp::Semicolon,
        }
    }

    /// Whether the kind opens a declaration.
    pub fn is_var_let(self) -> (r: bool)
        ensures
            r == (self == Syntax::LetKw || self == Syntax::VarKw),
    {
        matches!(self, Syntax::LetKw | Syntax::VarKw)
    }
}

/// The range from the start of the first token to the end of the last one;
/// `0..0` when there is none.
pub open spec fn span_of(tokens: Seq<Token>) -> TextRange {
    if tokens.len() == 0 {
        TextRange { start: 0, end: 0 }
    } else {
        TextRange { start: tokens[0].range.start, end: tokens.last().range.end }
    }
}

impl Token {
    pub fn range_tokens(tokens: &[Token]) -> (r: TextRange)
        ensures
            r == span_of(tokens@),
    {
        if tokens.len() == 0 {
            TextRange { start: 0, end: 0 }
        } else {
            TextRange { start: tokens[0].range.start, end: tokens[tokens.len() - 1].range.end }
        }
    }
}

/// The end-of-input marker of file 0, with an empty range at the start.
pub fn token_eof() -> (r: Token)
    ensures
        r == (Token {
            file_id: 0,
            id: TokenId(0),
            kind: Syntax::Eof,
            range: TextRange { start: 0, end: 0 },
            line: 0,
            col: 0,
        }),
{
    Token {
        file_id: 0,
        id: TokenId(0),
        kind: Syntax::Eof,
        range: TextRange { start: 0, end: 0 },
        line: 0,
        col: 0,
    }
}

/// The text a kind is shown as: its glyph for punctuation and keywords, a name otherwise.
pub open spec fn kind_text(k: Syntax) -> Seq<u8> {
    match k {
        Syntax::Cr => seq![67u8, 114u8],
        Syntax::Whitespace => seq![87u8, 104u8, 105u8, 116u8, 101u8, 115u8, 112u8, 97u8, 99u8, 101u8],
        Syntax::Comment => seq![67u8, 111u8, 109u8, 109u8, 101u8, 110u8, 116u8],
        Syntax::Bool => seq![66u8, 111u8, 111u8, 108u8],
        Syntax::Integer => seq![73u8, 110u8, 116u8, 54u8, 52u8],
        Syntax::Float => seq![70u8, 108u8, 111u8, 97u8, 116u8],
        Syntax::Decimal => seq![68u8, 101u8, 99u8, 105u8, 109u8, 97u8, 108u8],
        Syntax::Date => seq![68u8, 97u8, 116u8, 101u8],
        Syntax::Time => seq![84u8, 105u8, 109u8, 101u8],
        Syntax::DateTime => seq![68u8, 97u8, 116u8, 101u8, 84u8, 105u8, 109u8, 101u8],
        Syntax::String => seq![83u8, 116u8, 114u8, 105u8, 110u8, 103u8],
        Syntax::FnKw => seq![102u8, 117u8, 110u8],
        Syntax::LetKw => seq![108u8, 101u8, 116u8],
        Syntax::VarKw => seq![118u8, 97u8, 114u8],
        Syntax::IfKw => seq![105u8, 102u8],
        Syntax::ElseKw => seq![101u8, 108u8, 115u8, 101u8],
        Syntax::DoKw => seq![100u8, 111u8],
        Syntax::EndKw => seq![101u8, 110u8, 100u8],
        Syntax::Ident => seq![73u8, 100u8, 101u8, 110u8, 116u8],
        Syntax::Point => seq![46u8],
        Syntax::Comma => seq![44u8],
        Syntax::Semicolon => seq![59u8],
        Syntax::Question => seq![63u8],
        Syntax::Plus => seq![43u8],
        Syntax::Add => seq![65u8, 100u8, 100u8],
        Syntax::Minus => seq![45u8],
        Syntax::Neg => seq![78u8, 101u8, 103u8],
        Syntax::Star => seq![42u8],
        Syntax::Slash => seq![47u8],
        Syntax::Assign => seq![58u8, 61u8],
        Syntax::Equals => seq![61u8],
        Syntax::NotEquals => seq![33u8, 61u8],
        Syntax::Less => seq![60u8],
        Syntax::LessThan => seq![60u8, 61u8],
        Syntax::Greater => seq![62u8],
        Syntax::GreaterThan => seq![62u8, 61u8],
        Syntax::AndKw => seq![97u8, 110u8, 100u8],
        Syntax::OrKw => seq![111u8, 114u8],
        Syntax::NotKw => seq![110u8, 111u8, 116u8],
        Syntax::LParen => seq![40u8],
        Syntax::RParen => seq![41u8],
        Syntax::LBrace => seq![123u8],
        Syntax::RBrace => seq![125u8],
        Syntax::LSquare => seq![91u8],
        Syntax::RSquare => seq![93u8],
        Syntax::Root => seq![82u8, 111u8, 111u8, 116u8],
        Syntax::Eof => seq![69u8, 111u8, 102u8],
        Syntax::Error => seq![69u8, 114u8, 114u8, 111u8, 114u8],
    }
}

/// The bytes of `kind_text(k)`.
pub fn kind_name(k: Syntax) -> (r: Vec<u8>)
    ensures
        r@ == kind_text(k),
{
    match k {
        Syntax::Cr => vec![67u8, 114u8],
        Syntax::Whitespace => vec![87u8, 104u8, 105u8, 116u8, 101u8, 115u8, 112u8, 97u8, 99u8, 101u8],
        Syntax::Comment => vec![67u8, 111u8, 109u8, 109u8, 101u8, 110u8, 116u8],
        Syntax::Bool => vec![66u8, 111u8, 111u8, 108u8],
        Syntax::Integer => vec![73u8, 110u8, 116u8, 54u8, 52u8],
        Syntax::Float => vec![70u8, 108u8, 111u8, 97u8, 116u8],
        Syntax::Decimal => vec![68u8, 101u8, 99u8, 105u8, 109u8, 97u8, 108u8],
        Syntax::Date => vec![68u8, 97u8, 116u8, 101u8],
        Syntax::Time => vec![84u8, 105u8, 109u8, 101u8],
        Syntax::DateTime => vec![68u8, 97u8, 116u8, 101u8, 84u8, 105u8, 109u8, 101u8],
        Syntax::String => vec![83u8, 116u8, 114u8, 105u8, 110u8, 103u8],
        Syntax::FnKw => vec![102u8, 117u8, 110u8],
        Syntax::LetKw => vec![108u8, 101u8, 116u8],
        Syntax::VarKw => vec![118u8, 97u8, 114u8],
        Syntax::IfKw => vec![105u8, 102u8],
        Syntax::ElseKw => vec![101u8, 108u8, 115u8, 101u8],
        Syntax::DoKw => vec![100u8, 111u8],
        Syntax::EndKw => vec![101u8, 110u8, 100u8],
        Syntax::Ident => vec![73u8, 100u8, 101u8, 110u8, 116u8],
        Syntax::Point => vec![46u8],
        Syntax::Comma => vec![44u8],
        Syntax::Semicolon => vec![59u8],
        Syntax::Question => vec![63u8],
        Syntax::Plus => vec![43u8],
        Syntax::Add => vec![65u8, 100u8, 100u8],
        Syntax::Minus => vec![45u8],
        Syntax::Neg => vec![78u8, 101u8, 103u8],
        Syntax::Star => vec![42u8],
        Syntax::Slash => vec![47u8],
        Syntax::Assign => vec![58u8, 61u8],
        Syntax::Equals => vec![61u8],
        Syntax::NotEquals => vec![33u8, 61u8],
        Syntax::Less => vec![60u8],
        Syntax::LessThan => vec![60u8, 61u8],
        Syntax::Greater => vec![62u8],
        Syntax::GreaterThan => vec![62u8, 61u8],
        Syntax::AndKw => vec![97u8, 110u8, 100u8],
        Syntax::OrKw => vec![111u8, 114u8],
        Syntax::NotKw => vec![110u8, 111u8, 116u8],
        Syntax::LParen => vec![40u8],
        Syntax::RParen => vec![41u8],
        Syntax::LBrace => vec![123u8],
        Syntax::RBrace => vec![125u8],
        Syntax::LSquare => vec![91u8],
        Syntax::RSquare => vec![93u8],
        Syntax::Root => vec![82u8, 111u8, 111u8, 116u8],
        Syntax::Eof => vec![69u8, 111u8, 102u8],
        Syntax::Error => vec![69u8, 114u8, 114u8, 111u8, 114u8],
    }
}

} // verus!
