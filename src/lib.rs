//! Typed views over a lossless syntax tree: operator, literal, field and
//! conditional classification for expression nodes.
pub mod ast;
pub mod expr_extensions;
pub mod syntax_kind;
pub mod tree;

pub use ast::{BinExpr, BlockExpr, ChildFilter, Expr, FieldExpr, IfExpr, Literal, NameRef, PrefixExpr};
pub use expr_extensions::{BinOp, ElseBranch, FieldKind, LiteralKind, PrefixOp};
pub use syntax_kind::SyntaxKind;
pub use tree::{Element, SyntaxElement, SyntaxNode, SyntaxToken, SyntaxTree, TextRange};
