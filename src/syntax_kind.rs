use vstd::prelude::*;

verus! {

/// The kind tag of a tree element: lexical kinds for tokens, grammar kinds
/// for nodes.
#[allow(non_camel_case_types)]
#[derive(Clone, Copy, Debug, PartialEq, Eq, Hash, Structural)]
pub enum SyntaxKind {
    // tokens
    EXCL,
    PLUS,
    MINUS,
    STAR,
    SLASH,
    PERCENT,
    CARET,
    EQ,
    PLUSEQ,
    MINUSEQ,
    STAREQ,
    SLASHEQ,
    PERCENTEQ,
    CARETEQ,
    EQEQ,
    NEQ,
    LT,
    LTEQ,
    GT,
    GTEQ,
    DOT,
    INDEX,
    IDENT,
    STRING,
    INT_NUMBER,
    FLOAT_NUMBER,
    TRUE_KW,
    FALSE_KW,
    IF_KW,
    ELSE_KW,
    L_CURLY,
    R_CURLY,
    L_PAREN,
    R_PAREN,
    WHITESPACE,
    COMMENT,
    ERROR,
    // nodes
    LITERAL,
    PREFIX_EXPR,
    BIN_EXPR,
    FIELD_EXPR,
    IF_EXPR,
    BLOCK_EXPR,
    PAREN_EXPR,
    PATH_EXPR,
    CALL_EXPR,
    CONDITION,
    PATH,
    PATH_SEGMENT,
    NAME_REF,
}

/// Whitespace and comments: tokens that carry no meaning for the grammar.
pub open spec fn spec_is_trivia(k: SyntaxKind) -> bool {
    k == SyntaxKind::WHITESPACE || k == SyntaxKind::COMMENT
}

/// The grammar kinds of expression nodes.
pub open spec fn spec_is_expr(k: SyntaxKind) -> bool {
    match k {
        SyntaxKind::LITERAL
        | SyntaxKind::PREFIX_EXPR
        | SyntaxKind::BIN_EXPR
        | SyntaxKind::FIELD_EXPR
        | SyntaxKind::IF_EXPR
        | SyntaxKind::BLOCK_EXPR
        | SyntaxKind::PAREN_EXPR
        | SyntaxKind::PATH_EXPR
        | SyntaxKind::CALL_EXPR => true,
        _ => false,
    }
}

impl SyntaxKind {
    pub fn is_trivia(self) -> (r: bool)
        ensures
            r == spec_is_trivia(self),
    {
        match self {
            SyntaxKind::WHITESPACE | SyntaxKind::COMMENT => true,
            _ => false,
        }
    }

    pub fn is_expr(self) -> (r: bool)
        ensures
            r == spec_is_expr(self),
    {
        match self {
            SyntaxKind::LITERAL
            | SyntaxKind::PREFIX_EXPR
            | SyntaxKind::BIN_EXPR
            | SyntaxKind::FIELD_EXPR
            | SyntaxKind::IF_EXPR
            | SyntaxKind::BLOCK_EXPR
            | SyntaxKind::PAREN_EXPR
            | SyntaxKind::PATH_EXPR
            | SyntaxKind::CALL_EXPR => true,
            _ => false,
        }
    }
}

} // verus!
