use mun_syntax::{
    BinExpr, BinOp, ElseBranch, FieldExpr, FieldKind, IfExpr, Literal, LiteralKind, PrefixExpr,
    PrefixOp, SyntaxElement, SyntaxKind, SyntaxTree, TextRange,
};
use mun_syntax::SyntaxKind::{EQ, GT, LT, BIN_EXPR, BLOCK_EXPR, CARET, CARETEQ, COMMENT, CONDITION, DOT, ELSE_KW, EQEQ, ERROR, EXCL, FALSE_KW, FIELD_EXPR, FLOAT_NUMBER, GTEQ, IDENT, IF_EXPR, IF_KW, INDEX, INT_NUMBER, LITERAL, LTEQ, L_CURLY, MINUS, MINUSEQ, NAME_REF, NEQ, PATH, PATH_EXPR, PATH_SEGMENT, PERCENT, PERCENTEQ, PLUS, PLUSEQ, PREFIX_EXPR, R_CURLY, SLASH, SLASHEQ, STAR, STAREQ, STRING, TRUE_KW, WHITESPACE};

fn tok(t: &mut SyntaxTree, k: SyntaxKind, s: &str) -> usize {
    t.add_token(k, s).unwrap()
}

fn node(t: &mut SyntaxTree, k: SyntaxKind, cs: Vec<usize>) -> usize {
    t.add_node(k, cs).unwrap()
}

/// A path expression naming `name`.
fn path_expr(t: &mut SyntaxTree, name: &str) -> usize {
    let ident = tok(t, IDENT, name);
    let name_ref = node(t, NAME_REF, vec![ident]);
    let segment = node(t, PATH_SEGMENT, vec![name_ref]);
    let path = node(t, PATH, vec![segment]);
    node(t, PATH_EXPR, vec![path])
}

fn literal(t: &mut SyntaxTree, k: SyntaxKind, s: &str) -> usize {
    let token = tok(t, k, s);
    node(t, LITERAL, vec![token])
}

/// `{ <value> }`
fn block(t: &mut SyntaxTree, value: &str) -> usize {
    let l = tok(t, L_CURLY, "{");
    let w1 = tok(t, WHITESPACE, " ");
    let lit = literal(t, INT_NUMBER, value);
    let w2 = tok(t, WHITESPACE, " ");
    let r = tok(t, R_CURLY, "}");
    node(t, BLOCK_EXPR, vec![l, w1, lit, w2, r])
}

/// `if <cond> { <value> }`, the children of the node without the else part.
fn if_head(t: &mut SyntaxTree, cond: &str, value: &str) -> Vec<usize> {
    let kw = tok(t, IF_KW, "if");
    let w1 = tok(t, WHITESPACE, " ");
    let c = path_expr(t, cond);
    let condition = node(t, CONDITION, vec![c]);
    let w2 = tok(t, WHITESPACE, " ");
    let then = block(t, value);
    vec![kw, w1, condition, w2, then]
}

fn prefix_of(op: SyntaxKind, glyph: &str) -> (SyntaxTree, usize, usize) {
    let mut t = SyntaxTree::new();
    let op_tok = tok(&mut t, op, glyph);
    let operand = path_expr(&mut t, "x");
    let root = node(&mut t, PREFIX_EXPR, vec![op_tok, operand]);
    (t, root, op_tok)
}

/// `a <glyph> b`
fn binary_of(op: SyntaxKind, glyph: &str) -> (SyntaxTree, usize, usize, usize, usize) {
    let mut t = SyntaxTree::new();
    let a = path_expr(&mut t, "a");
    let w1 = tok(&mut t, WHITESPACE, " ");
    let op_tok = tok(&mut t, op, glyph);
    let w2 = tok(&mut t, WHITESPACE, " ");
    let b = path_expr(&mut t, "b");
    let root = node(&mut t, BIN_EXPR, vec![a, w1, op_tok, w2, b]);
    (t, root, a, op_tok, b)
}

fn bin_op_for(op: SyntaxKind, glyph: &str) -> Option<BinOp> {
    let (t, root, _, _, _) = binary_of(op, glyph);
    let e = BinExpr::cast(t.node(root).unwrap()).unwrap();
    e.op_kind()
}

#[test]
fn prefix_not() {
    let (t, root, op_tok) = prefix_of(EXCL, "!");
    let e = PrefixExpr::cast(t.node(root).unwrap()).unwrap();
    assert_eq!(e.op_kind(), Some(PrefixOp::Not));
    let token = e.op_token().unwrap();
    assert_eq!(token.index(), op_tok);
    assert_eq!(token.text(), "!");
}

#[test]
fn prefix_neg() {
    let (t, root, _) = prefix_of(MINUS, "-");
    let e = PrefixExpr::cast(t.node(root).unwrap()).unwrap();
    assert_eq!(e.op_kind(), Some(PrefixOp::Neg));
}

#[test]
fn prefix_other_token_has_no_operator() {
    let (t, root, op_tok) = prefix_of(PLUS, "+");
    let e = PrefixExpr::cast(t.node(root).unwrap()).unwrap();
    assert_eq!(e.op_kind(), None);
    assert_eq!(e.op_token().unwrap().index(), op_tok);
}

#[test]
fn prefix_without_leading_token() {
    let mut t = SyntaxTree::new();
    let operand = path_expr(&mut t, "x");
    let root = node(&mut t, PREFIX_EXPR, vec![operand]);
    let e = PrefixExpr::cast(t.node(root).unwrap()).unwrap();
    assert!(e.op_token().is_none());
    assert_eq!(e.op_kind(), None);

    let mut t = SyntaxTree::new();
    let root = node(&mut t, PREFIX_EXPR, vec![]);
    let e = PrefixExpr::cast(t.node(root).unwrap()).unwrap();
    assert_eq!(e.op_kind(), None);
}

#[test]
fn cast_checks_the_kind() {
    let (t, root, _) = prefix_of(EXCL, "!");
    let n = t.node(root).unwrap();
    assert!(BinExpr::cast(n).is_none());
    assert!(Literal::cast(n).is_none());
    assert!(PrefixExpr::cast(n).is_some());
    assert!(t.node(0).is_none());
    assert!(t.token(0).is_some());
}

#[test]
fn binary_add_with_trivia() {
    let mut t = SyntaxTree::new();
    let a = path_expr(&mut t, "a");
    let w1 = tok(&mut t, WHITESPACE, " ");
    let c = tok(&mut t, COMMENT, "/* c */");
    let w2 = tok(&mut t, WHITESPACE, " ");
    let plus = tok(&mut t, PLUS, "+");
    let w3 = tok(&mut t, WHITESPACE, "\n");
    let b = path_expr(&mut t, "b");
    let root = node(&mut t, BIN_EXPR, vec![a, w1, c, w2, plus, w3, b]);
    let e = BinExpr::cast(t.node(root).unwrap()).unwrap();
    assert_eq!(e.op_kind(), Some(BinOp::Add));
    assert_eq!(e.op_token().unwrap().index(), plus);
    assert_eq!(e.lhs().unwrap().syntax().index(), a);
    assert_eq!(e.rhs().unwrap().syntax().index(), b);
    let (l, r) = e.sub_exprs();
    assert_eq!(l.unwrap().syntax().index(), a);
    assert_eq!(r.unwrap().syntax().index(), b);
    let (token, op) = e.op_details().unwrap();
    assert_eq!(token.text(), "+");
    assert_eq!(op, BinOp::Add);
}

#[test]
fn binary_add_plain() {
    let (t, root, a, plus, b) = binary_of(PLUS, "+");
    let e = BinExpr::cast(t.node(root).unwrap()).unwrap();
    assert_eq!(e.op_kind(), Some(BinOp::Add));
    assert_eq!(e.op_token().unwrap().index(), plus);
    assert_eq!(e.lhs().unwrap().syntax().index(), a);
    assert_eq!(e.rhs().unwrap().syntax().index(), b);
}

#[test]
fn compound_assignment_glyphs() {
    assert_eq!(bin_op_for(PLUSEQ, "+="), Some(BinOp::AddAssign));
    assert_eq!(bin_op_for(MINUSEQ, "-="), Some(BinOp::SubtractAssign));
    assert_eq!(bin_op_for(SLASHEQ, "/="), Some(BinOp::DivideAssign));
    assert_eq!(bin_op_for(STAREQ, "*="), Some(BinOp::MultiplyAssign));
    assert_eq!(bin_op_for(EQ, "="), Some(BinOp::Assign));
}

#[test]
fn arithmetic_and_comparison_glyphs() {
    assert_eq!(bin_op_for(PLUS, "+"), Some(BinOp::Add));
    assert_eq!(bin_op_for(MINUS, "-"), Some(BinOp::Subtract));
    assert_eq!(bin_op_for(SLASH, "/"), Some(BinOp::Divide));
    assert_eq!(bin_op_for(STAR, "*"), Some(BinOp::Multiply));
    assert_eq!(bin_op_for(EQEQ, "=="), Some(BinOp::Equals));
    assert_eq!(bin_op_for(NEQ, "!="), Some(BinOp::NotEquals));
    assert_eq!(bin_op_for(LT, "<"), Some(BinOp::Less));
    assert_eq!(bin_op_for(LTEQ, "<="), Some(BinOp::LessEqual));
    assert_eq!(bin_op_for(GT, ">"), Some(BinOp::Greater));
    assert_eq!(bin_op_for(GTEQ, ">="), Some(BinOp::GreatEqual));
}

#[test]
fn reserved_glyphs_have_no_operator() {
    assert_eq!(bin_op_for(PERCENT, "%"), None);
    assert_eq!(bin_op_for(CARET, "^"), None);
    assert_eq!(bin_op_for(PERCENTEQ, "%="), None);
    assert_eq!(bin_op_for(CARETEQ, "^="), None);
}

#[test]
fn binary_without_operator() {
    let (t, root, a, _, b) = binary_of(ERROR, "?");
    let e = BinExpr::cast(t.node(root).unwrap()).unwrap();
    assert_eq!(e.op_kind(), None);
    assert!(e.op_token().is_none());
    assert!(e.op_details().is_none());
    assert_eq!(e.lhs().unwrap().syntax().index(), a);
    assert_eq!(e.rhs().unwrap().syntax().index(), b);
}

#[test]
fn binary_first_operator_token_wins() {
    let mut t = SyntaxTree::new();
    let a = path_expr(&mut t, "a");
    let bad = tok(&mut t, ERROR, "?");
    let lt = tok(&mut t, LT, "<");
    let eq = tok(&mut t, EQ, "=");
    let b = path_expr(&mut t, "b");
    let root = node(&mut t, BIN_EXPR, vec![a, bad, lt, eq, b]);
    let e = BinExpr::cast(t.node(root).unwrap()).unwrap();
    assert_eq!(e.op_kind(), Some(BinOp::Less));
    assert_eq!(e.op_token().unwrap().index(), lt);
}

#[test]
fn binary_missing_operand() {
    let mut t = SyntaxTree::new();
    let a = path_expr(&mut t, "a");
    let plus = tok(&mut t, PLUS, "+");
    let root = node(&mut t, BIN_EXPR, vec![a, plus]);
    let e = BinExpr::cast(t.node(root).unwrap()).unwrap();
    assert_eq!(e.lhs().unwrap().syntax().index(), a);
    assert!(e.rhs().is_none());
    let (l, r) = e.sub_exprs();
    assert!(l.is_some());
    assert!(r.is_none());
}

#[test]
fn field_by_name() {
    // x.y
    let mut t = SyntaxTree::new();
    let x = path_expr(&mut t, "x");
    let dot = tok(&mut t, DOT, ".");
    let y = tok(&mut t, IDENT, "y");
    let name = node(&mut t, NAME_REF, vec![y]);
    let root = node(&mut t, FIELD_EXPR, vec![x, dot, name]);
    let e = FieldExpr::cast(t.node(root).unwrap()).unwrap();
    match e.field_access() {
        Some(FieldKind::Name(nr)) => {
            assert_eq!(nr.syntax().index(), name);
            match nr.syntax().child(0) {
                SyntaxElement::Token(tk) => assert_eq!(tk.text(), "y"),
                SyntaxElement::Node(_) => panic!("name without token"),
            }
        }
        _ => panic!("expected access by name"),
    }
    assert_eq!(e.field_range(), TextRange::from_to(2, 3));
    assert!(e.index_token().is_none());
}

#[test]
fn field_by_index() {
    // x.0, the separator is part of the index token
    let mut t = SyntaxTree::new();
    let x = path_expr(&mut t, "x");
    let index = tok(&mut t, INDEX, ".0");
    let root = node(&mut t, FIELD_EXPR, vec![x, index]);
    let e = FieldExpr::cast(t.node(root).unwrap()).unwrap();
    match e.field_access() {
        Some(FieldKind::Index(tk)) => {
            assert_eq!(tk.index(), index);
            assert_eq!(tk.text(), ".0");
        }
        _ => panic!("expected access by index"),
    }
    assert_eq!(e.field_range(), TextRange { start: 2, end: 3 });
    assert!(e.name_ref().is_none());
}

#[test]
fn field_by_long_index_after_offset() {
    // `  s.12`: the node starts after leading whitespace
    let mut t = SyntaxTree::new();
    let _lead = tok(&mut t, WHITESPACE, "  ");
    let s = path_expr(&mut t, "s");
    let index = tok(&mut t, INDEX, ".12");
    let root = node(&mut t, FIELD_EXPR, vec![s, index]);
    let e = FieldExpr::cast(t.node(root).unwrap()).unwrap();
    assert_eq!(e.field_range(), TextRange { start: 4, end: 6 });
}

#[test]
fn field_malformed() {
    // `  x.` with neither a name nor an index
    let mut t = SyntaxTree::new();
    let _lead = tok(&mut t, WHITESPACE, "  ");
    let x = path_expr(&mut t, "x");
    let dot = tok(&mut t, DOT, ".");
    let root = node(&mut t, FIELD_EXPR, vec![x, dot]);
    let e = FieldExpr::cast(t.node(root).unwrap()).unwrap();
    assert!(e.field_access().is_none());
    assert_eq!(e.syntax().text_range(), TextRange { start: 2, end: 4 });
    assert_eq!(e.field_range(), TextRange { start: 2, end: 2 });
}

#[test]
fn field_index_kind_on_a_node_is_ignored() {
    let mut t = SyntaxTree::new();
    let x = path_expr(&mut t, "x");
    let zero = tok(&mut t, INT_NUMBER, "0");
    let odd = node(&mut t, INDEX, vec![zero]);
    let root = node(&mut t, FIELD_EXPR, vec![x, odd]);
    let e = FieldExpr::cast(t.node(root).unwrap()).unwrap();
    assert!(e.index_token().is_none());
    assert!(e.field_access().is_none());
    assert_eq!(e.field_range(), TextRange { start: 0, end: 0 });
}

fn literal_kind_of(k: SyntaxKind, s: &str) -> LiteralKind {
    let mut t = SyntaxTree::new();
    let root = literal(&mut t, k, s);
    let l = Literal::cast(t.node(root).unwrap()).unwrap();
    l.kind()
}

#[test]
fn literal_kinds() {
    assert_eq!(literal_kind_of(STRING, "\"s\""), LiteralKind::String);
    assert_eq!(literal_kind_of(INT_NUMBER, "42"), LiteralKind::IntNumber);
    assert_eq!(literal_kind_of(FLOAT_NUMBER, "4.2"), LiteralKind::FloatNumber);
    assert_eq!(literal_kind_of(TRUE_KW, "true"), LiteralKind::Bool);
    assert_eq!(literal_kind_of(FALSE_KW, "false"), LiteralKind::Bool);
}

#[test]
fn literal_token_skips_trivia() {
    let mut t = SyntaxTree::new();
    let c = tok(&mut t, COMMENT, "// n\n");
    let w = tok(&mut t, WHITESPACE, " ");
    let n = tok(&mut t, INT_NUMBER, "42");
    let root = node(&mut t, LITERAL, vec![c, w, n]);
    let l = Literal::cast(t.node(root).unwrap()).unwrap();
    let token = l.token();
    assert_eq!(token.index(), n);
    assert_eq!(token.text(), "42");
    assert_eq!(token.kind(), INT_NUMBER);
    assert_eq!(token.text_range(), TextRange { start: 6, end: 8 });
    assert_eq!(l.kind(), LiteralKind::IntNumber);
}

#[test]
fn if_with_else_block() {
    // if c { 1 } else { 2 }
    let mut t = SyntaxTree::new();
    let mut cs = if_head(&mut t, "c", "1");
    let w1 = tok(&mut t, WHITESPACE, " ");
    let kw = tok(&mut t, ELSE_KW, "else");
    let w2 = tok(&mut t, WHITESPACE, " ");
    let other = block(&mut t, "2");
    cs.extend([w1, kw, w2, other]);
    let then = cs[4];
    let root = node(&mut t, IF_EXPR, cs);
    let e = IfExpr::cast(t.node(root).unwrap()).unwrap();
    assert_eq!(e.then_branch().unwrap().syntax().index(), then);
    match e.else_branch() {
        Some(ElseBranch::Block(b)) => assert_eq!(b.syntax().index(), other),
        _ => panic!("expected an else block"),
    }
}

#[test]
fn if_with_else_if() {
    // if c { 1 } else if d { 2 }
    let mut t = SyntaxTree::new();
    let mut cs = if_head(&mut t, "c", "1");
    let w1 = tok(&mut t, WHITESPACE, " ");
    let kw = tok(&mut t, ELSE_KW, "else");
    let w2 = tok(&mut t, WHITESPACE, " ");
    let inner_cs = if_head(&mut t, "d", "2");
    let inner_then = inner_cs[4];
    let inner = node(&mut t, IF_EXPR, inner_cs);
    cs.extend([w1, kw, w2, inner]);
    let root = node(&mut t, IF_EXPR, cs);
    let e = IfExpr::cast(t.node(root).unwrap()).unwrap();
    match e.else_branch() {
        Some(ElseBranch::IfExpr(elif)) => {
            assert_eq!(elif.syntax().index(), inner);
            assert_eq!(elif.then_branch().unwrap().syntax().index(), inner_then);
            assert!(elif.else_branch().is_none());
        }
        _ => panic!("expected an else-if"),
    }
}

#[test]
fn if_without_else() {
    // if c { 1 }
    let mut t = SyntaxTree::new();
    let cs = if_head(&mut t, "c", "1");
    let then = cs[4];
    let root = node(&mut t, IF_EXPR, cs);
    let e = IfExpr::cast(t.node(root).unwrap()).unwrap();
    assert!(e.else_branch().is_none());
    assert_eq!(e.then_branch().unwrap().syntax().index(), then);
}

#[test]
fn if_without_blocks() {
    let mut t = SyntaxTree::new();
    let kw = tok(&mut t, IF_KW, "if");
    let root = node(&mut t, IF_EXPR, vec![kw]);
    let e = IfExpr::cast(t.node(root).unwrap()).unwrap();
    assert!(e.then_branch().is_none());
    assert!(e.else_branch().is_none());
}

#[test]
fn queries_repeat_alike() {
    let (t, root, a, plus, b) = binary_of(STAREQ, "*=");
    let e = BinExpr::cast(t.node(root).unwrap()).unwrap();
    for _ in 0..3 {
        assert_eq!(e.op_kind(), Some(BinOp::MultiplyAssign));
        assert_eq!(e.op_token().unwrap().index(), plus);
        assert_eq!(e.lhs().unwrap().syntax().index(), a);
        assert_eq!(e.rhs().unwrap().syntax().index(), b);
    }
    let (t2, root2, _) = prefix_of(MINUS, "-");
    let p = PrefixExpr::cast(t2.node(root2).unwrap()).unwrap();
    assert_eq!(p.op_kind(), p.op_kind());
}

#[test]
fn binary_nested_operator_is_not_a_child() {
    // a - b + c, read as (a - b) + c
    let mut t = SyntaxTree::new();
    let a = path_expr(&mut t, "a");
    let w1 = tok(&mut t, WHITESPACE, " ");
    let minus = tok(&mut t, MINUS, "-");
    let w2 = tok(&mut t, WHITESPACE, " ");
    let b = path_expr(&mut t, "b");
    let inner = node(&mut t, BIN_EXPR, vec![a, w1, minus, w2, b]);
    let w3 = tok(&mut t, WHITESPACE, " ");
    let plus = tok(&mut t, PLUS, "+");
    let w4 = tok(&mut t, WHITESPACE, " ");
    let c = path_expr(&mut t, "c");
    let root = node(&mut t, BIN_EXPR, vec![inner, w3, plus, w4, c]);
    let e = BinExpr::cast(t.node(root).unwrap()).unwrap();
    let (token, op) = e.op_details().unwrap();
    assert_eq!(op, BinOp::Add);
    assert_eq!(token.kind(), PLUS);
    assert_eq!(token.text_range(), TextRange { start: 6, end: 7 });
    assert_eq!(e.lhs().unwrap().syntax().index(), inner);
    assert_eq!(e.rhs().unwrap().syntax().index(), c);
}
