use vstd::prelude::*;
use crate::ast::{
    children_where, children_where_spec, first_child_of_kind, first_of_kind, group_views,
    lemma_first_of_kind_member, lemma_nodes_where_member, lemma_nodes_where_ordered, selected,
    BinExpr, BlockExpr, ChildFilter, Expr, FieldExpr, IfExpr, Literal, NameRef, PrefixExpr,
};
use crate::syntax_kind::{spec_is_trivia, SyntaxKind};
use crate::tree::{element_wf, Element, SyntaxElement, SyntaxToken, TextRange};

verus! {

broadcast use group_views;

/// A unary operator.
#[derive(Clone, Copy, Debug, PartialEq, Eq, Hash, Structural)]
pub enum PrefixOp {
    /// The `!` operator for logical inversion
    Not,
    /// The `-` operator for negation
    Neg,
}

/// The unary operator that a token kind denotes.
pub open spec fn prefix_op_of(k: SyntaxKind) -> Option<PrefixOp> {
    match k {
        SyntaxKind::EXCL => Some(PrefixOp::Not),
        SyntaxKind::MINUS => Some(PrefixOp::Neg),
        _ => None,
    }
}

impl PrefixOp {
    pub fn from_kind(k: SyntaxKind) -> (r: Option<PrefixOp>)
        ensures
            r == prefix_op_of(k),
    {
        match k {
            SyntaxKind::EXCL => Some(PrefixOp::Not),
            SyntaxKind::MINUS => Some(PrefixOp::Neg),
            _ => None,
        }
    }
}

impl<'a> PrefixExpr<'a> {
    /// The arena index of the node's first child, where that child is a token.
    pub open spec fn op_index(self) -> Option<usize> {
        let n = self.node();
        if n.kids().len() > 0 && n.elems()[n.kids()[0] as int].is_token {
            Some(n.kids()[0])
        } else {
            None
        }
    }

    pub open spec fn spec_op_token(self) -> Option<SyntaxToken<'a>> {
        match self.op_index() {
            Some(i) => Some(self.node().token_at(i)),
            None => None,
        }
    }

    pub open spec fn spec_op_kind(self) -> Option<PrefixOp> {
        match self.op_index() {
            Some(i) => prefix_op_of(self.node().elems()[i as int].kind),
            None => None,
        }
    }

    /// The operator: from the leading token, `!` or `-`; `None` where the
    /// first child is no token or another token.
    pub fn op_kind(&self) -> (r: Option<PrefixOp>)
        ensures
            r == self.spec_op_kind(),
    {
        match self.op_token() {
            Some(t) => {
                proof {
                    self.node().lemma_node_at(self.op_index().unwrap());
                    self.node().lemma_token_at(self.op_index().unwrap());
                }
                PrefixOp::from_kind(t.kind())
            },
            None => None,
        }
    }

    /// The first child of the node, where it is a token.
    pub fn op_token(&self) -> (r: Option<SyntaxToken<'a>>)
        ensures
            r == self.spec_op_token(),
    {
        let n = self.syntax();
        if n.child_count() == 0 {
            return None;
        }
        match n.child(0) {
            SyntaxElement::Token(t) => Some(t),
            SyntaxElement::Node(_) => None,
        }
    }
}

/// A binary operator or assignment. Remainder and power, and their
/// assignment forms, have lexical kinds (`%`, `^`, `%=`, `^=`) that no
/// operator stands for yet.
#[derive(Clone, Copy, Debug, PartialEq, Eq, Hash, Structural)]
pub enum BinOp {
    Add,
    Subtract,
    Divide,
    Multiply,
    Assign,
    AddAssign,
    SubtractAssign,
    DivideAssign,
    MultiplyAssign,
    Equals,
    NotEquals,
    LessEqual,
    Less,
    GreatEqual,
    Greater,
}

/// The binary operator that a token kind denotes.
pub open spec fn bin_op_of(k: SyntaxKind) -> Option<BinOp> {
    match k {
        SyntaxKind::PLUS => Some(BinOp::Add),
        SyntaxKind::MINUS => Some(BinOp::Subtract),
        SyntaxKind::SLASH => Some(BinOp::Divide),
        SyntaxKind::STAR => Some(BinOp::Multiply),
        SyntaxKind::EQ => Some(BinOp::Assign),
        SyntaxKind::PLUSEQ => Some(BinOp::AddAssign),
        SyntaxKind::MINUSEQ => Some(BinOp::SubtractAssign),
        SyntaxKind::SLASHEQ => Some(BinOp::DivideAssign),
        SyntaxKind::STAREQ => Some(BinOp::MultiplyAssign),
        SyntaxKind::EQEQ => Some(BinOp::Equals),
        SyntaxKind::NEQ => Some(BinOp::NotEquals),
        SyntaxKind::LT => Some(BinOp::Less),
        SyntaxKind::LTEQ => Some(BinOp::LessEqual),
        SyntaxKind::GT => Some(BinOp::Greater),
        SyntaxKind::GTEQ => Some(BinOp::GreatEqual),
        SyntaxKind::PERCENT | SyntaxKind::CARET | SyntaxKind::PERCENTEQ | SyntaxKind::CARETEQ => None,
        _ => None,
    }
}

impl BinOp {
    pub fn from_kind(k: SyntaxKind) -> (r: Option<BinOp>)
        ensures
            r == bin_op_of(k),
    {
        match k {
            SyntaxKind::PLUS => Some(BinOp::Add),
            SyntaxKind::MINUS => Some(BinOp::Subtract),
            SyntaxKind::SLASH => Some(BinOp::Divide),
            SyntaxKind::STAR => Some(BinOp::Multiply),
            SyntaxKind::EQ => Some(BinOp::Assign),
            SyntaxKind::PLUSEQ => Some(BinOp::AddAssign),
            SyntaxKind::MINUSEQ => Some(BinOp::SubtractAssign),
            SyntaxKind::SLASHEQ => Some(BinOp::DivideAssign),
            SyntaxKind::STAREQ => Some(BinOp::MultiplyAssign),
            SyntaxKind::EQEQ => Some(BinOp::Equals),
            SyntaxKind::NEQ => Some(BinOp::NotEquals),
            SyntaxKind::LT => Some(BinOp::Less),
            SyntaxKind::LTEQ => Some(BinOp::LessEqual),
            SyntaxKind::GT => Some(BinOp::Greater),
            SyntaxKind::GTEQ => Some(BinOp::GreatEqual),
            // reserved: not yet given an operator
            SyntaxKind::PERCENT | SyntaxKind::CARET | SyntaxKind::PERCENTEQ | SyntaxKind::CARETEQ => None,
            _ => None,
        }
    }
}

/// Entry `c` is a token that denotes a binary operator.
pub open spec fn is_bin_op_token(es: Seq<Element>, c: usize) -> bool {
    es[c as int].is_token && bin_op_of(es[c as int].kind) is Some
}

/// The first entry of `cs` that is an operator token.
pub open spec fn first_bin_op(es: Seq<Element>, cs: Seq<usize>) -> Option<usize>
    decreases cs.len(),
{
    if cs.len() == 0 {
        None
    } else if is_bin_op_token(es, cs[0]) {
        Some(cs[0])
    } else {
        first_bin_op(es, cs.drop_first())
    }
}

/// What the search finds is an operator token.
pub proof fn lemma_first_bin_op(es: Seq<Element>, cs: Seq<usize>)
    ensures
        first_bin_op(es, cs) matches Some(i) ==> is_bin_op_token(es, i),
    decreases cs.len(),
{
    if cs.len() > 0 && !is_bin_op_token(es, cs[0]) {
        lemma_first_bin_op(es, cs.drop_first());
    }
}

/// The operator token found is one of `cs`.
pub proof fn lemma_first_bin_op_member(es: Seq<Element>, cs: Seq<usize>)
    ensures
        first_bin_op(es, cs) matches Some(i) ==> exists|p: int| 0 <= p < cs.len() && cs[p] == i,
    decreases cs.len(),
{
    if cs.len() > 0 {
        if is_bin_op_token(es, cs[0]) {
            assert(cs[0] == cs[0]);
        } else {
            lemma_first_bin_op_member(es, cs.drop_first());
            if let Some(i) = first_bin_op(es, cs) {
                let p = choose|p: int| 0 <= p < cs.drop_first().len() && cs.drop_first()[p] == i;
                assert(cs[p + 1] == i);
            }
        }
    }
}

impl<'a> BinExpr<'a> {
    /// The arena index of the operator token: the first child, in source
    /// order, that is a token denoting a binary operator.
    pub open spec fn op_index(self) -> Option<usize> {
        first_bin_op(self.node().elems(), self.node().kids())
    }

    pub open spec fn spec_op_details(self) -> Option<(SyntaxToken<'a>, BinOp)> {
        match self.op_index() {
            Some(i) => Some(
                (self.node().token_at(i), bin_op_of(self.node().elems()[i as int].kind).unwrap()),
            ),
            None => None,
        }
    }

    pub open spec fn spec_op_kind(self) -> Option<BinOp> {
        match self.op_index() {
            Some(i) => bin_op_of(self.node().elems()[i as int].kind),
            None => None,
        }
    }

    pub open spec fn spec_op_token(self) -> Option<SyntaxToken<'a>> {
        match self.op_index() {
            Some(i) => Some(self.node().token_at(i)),
            None => None,
        }
    }

    /// The `k`-th child that is an expression node, as an expression.
    pub open spec fn spec_operand(self, k: int) -> Option<Expr<'a>> {
        let f = children_where_spec(self.node(), ChildFilter::AnyExpr);
        if 0 <= k < f.len() {
            Some(Expr::view_of(self.node().node_at(f[k])))
        } else {
            None
        }
    }

    /// The operator token and the operator it denotes: the first token among
    /// the children, in source order, that denotes one; `None` where no
    /// token does.
    pub fn op_details(&self) -> (r: Option<(SyntaxToken<'a>, BinOp)>)
        ensures
            r == self.spec_op_details(),
    {
        let n = self.syntax();
        let ghost cs = n.kids();
        let ghost es = n.elems();
        let count = n.child_count();
        let mut j: usize = 0;
        assert(cs.subrange(0, cs.len() as int) =~= cs);
        while j < count
            invariant
                n == self.node(),
                count == cs.len(),
                cs == n.kids(),
                es == n.elems(),
                j <= count,
                first_bin_op(es, cs) == first_bin_op(es, cs.subrange(j as int, cs.len() as int)),
            decreases count - j,
        {
            let c = n.child(j);
            proof {
                let rest = cs.subrange(j as int, cs.len() as int);
                assert(rest.drop_first() =~= cs.subrange(j + 1, cs.len() as int));
                assert(rest[0] == cs[j as int]);
                n.lemma_node_at(cs[j as int]);
                n.lemma_token_at(cs[j as int]);
            }
            match c {
                SyntaxElement::Token(t) => {
                    match BinOp::from_kind(t.kind()) {
                        Some(op) => {
                            return Some((t, op));
                        },
                        None => {},
                    }
                },
                SyntaxElement::Node(_) => {},
            }
            j = j + 1;
        }
        None
    }

    pub fn op_kind(&self) -> (r: Option<BinOp>)
        ensures
            r == self.spec_op_kind(),
    {
        proof {
            lemma_first_bin_op(self.node().elems(), self.node().kids());
        }
        match self.op_details() {
            Some(d) => Some(d.1),
            None => None,
        }
    }

    pub fn op_token(&self) -> (r: Option<SyntaxToken<'a>>)
        ensures
            r == self.spec_op_token(),
    {
        match self.op_details() {
            Some(d) => Some(d.0),
            None => None,
        }
    }

    /// The `k`-th child that is an expression node.
    fn operand(&self, k: usize) -> (r: Option<Expr<'a>>)
        ensures
            r == self.spec_operand(k as int),
    {
        let n = self.syntax();
        let v = children_where(&n, ChildFilter::AnyExpr);
        if k < v.len() {
            proof {
                n.lemma_node_at(children_where_spec(n, ChildFilter::AnyExpr)[k as int]);
                n.lemma_token_at(children_where_spec(n, ChildFilter::AnyExpr)[k as int]);
            }
            Expr::cast(v[k])
        } else {
            None
        }
    }

    /// The first expression child.
    pub fn lhs(&self) -> (r: Option<Expr<'a>>)
        ensures
            r == self.spec_operand(0),
    {
        self.operand(0)
    }

    /// The second expression child.
    pub fn rhs(&self) -> (r: Option<Expr<'a>>)
        ensures
            r == self.spec_operand(1),
    {
        self.operand(1)
    }

    /// Both operands, from one scan of the children.
    pub fn sub_exprs(&self) -> (r: (Option<Expr<'a>>, Option<Expr<'a>>))
        ensures
            r == (self.spec_operand(0), self.spec_operand(1)),
    {
        let n = self.syntax();
        let v = children_where(&n, ChildFilter::AnyExpr);
        let ghost f = children_where_spec(n, ChildFilter::AnyExpr);
        let first = if v.len() > 0 {
            proof {
                n.lemma_node_at(f[0]);
                n.lemma_token_at(f[0]);
            }
            Expr::cast(v[0])
        } else {
            None
        };
        let second = if v.len() > 1 {
            proof {
                n.lemma_node_at(f[1]);
                n.lemma_token_at(f[1]);
            }
            Expr::cast(v[1])
        } else {
            None
        };
        (first, second)
    }
}

/// The two shapes of a field access.
#[derive(Clone, Copy)]
pub enum FieldKind<'a> {
    /// Access by name: `x.y`.
    Name(NameRef<'a>),
    /// Access by position: `x.0`; the token holds the separator too.
    Index(SyntaxToken<'a>),
}

impl<'a> FieldExpr<'a> {
    /// The arena index of the first node child that is a name reference.
    pub open spec fn name_index(self) -> Option<usize> {
        let f = children_where_spec(self.node(), ChildFilter::OfKind(SyntaxKind::NAME_REF));
        if f.len() > 0 {
            Some(f[0])
        } else {
            None
        }
    }

    /// The arena index of the first child of kind `INDEX`, where that child
    /// is a token.
    pub open spec fn index_index(self) -> Option<usize> {
        let n = self.node();
        match first_of_kind(n.elems(), n.kids(), SyntaxKind::INDEX) {
            Some(i) => if n.elems()[i as int].is_token {
                Some(i)
            } else {
                None
            },
            None => None,
        }
    }

    pub open spec fn spec_name_ref(self) -> Option<NameRef<'a>> {
        match self.name_index() {
            Some(i) => Some(NameRef::view_of(self.node().node_at(i))),
            None => None,
        }
    }

    pub open spec fn spec_index_token(self) -> Option<SyntaxToken<'a>> {
        match self.index_index() {
            Some(i) => Some(self.node().token_at(i)),
            None => None,
        }
    }

    pub open spec fn spec_field_access(self) -> Option<FieldKind<'a>> {
        match self.spec_name_ref() {
            Some(nr) => Some(FieldKind::Name(nr)),
            None => match self.spec_index_token() {
                Some(t) => Some(FieldKind::Index(t)),
                None => None,
            },
        }
    }

    /// The span of the field designator alone: the name's span; else the
    /// index token's span without its leading separator; else an empty span
    /// at the start of the node.
    pub open spec fn spec_field_range(self) -> TextRange {
        let es = self.node().elems();
        match self.name_index() {
            Some(i) => es[i as int].range,
            None => match self.index_index() {
                Some(i) => TextRange {
                    start: (es[i as int].range.start + 1) as usize,
                    end: es[i as int].range.end,
                },
                None => TextRange {
                    start: es[self.node().id()].range.start,
                    end: es[self.node().id()].range.start,
                },
            },
        }
    }

    /// The field's name, where the access is by name.
    pub fn name_ref(&self) -> (r: Option<NameRef<'a>>)
        ensures
            r == self.spec_name_ref(),
    {
        let n = self.syntax();
        let v = children_where(&n, ChildFilter::OfKind(SyntaxKind::NAME_REF));
        if v.len() > 0 {
            proof {
                n.lemma_node_at(self.name_index().unwrap());
                n.lemma_token_at(self.name_index().unwrap());
            }
            NameRef::cast(v[0])
        } else {
            None
        }
    }

    /// The first child of kind `INDEX`, where it is a token.
    pub fn index_token(&self) -> (r: Option<SyntaxToken<'a>>)
        ensures
            r == self.spec_index_token(),
    {
        let n = self.syntax();
        match first_child_of_kind(&n, SyntaxKind::INDEX) {
            Some(SyntaxElement::Token(t)) => Some(t),
            _ => None,
        }
    }

    /// Access by name where a name reference is present, else by index
    /// where an index token is present, else `None`.
    pub fn field_access(&self) -> (r: Option<FieldKind<'a>>)
        ensures
            r == self.spec_field_access(),
    {
        if let Some(nr) = self.name_ref() {
            Some(FieldKind::Name(nr))
        } else if let Some(tok) = self.index_token() {
            Some(FieldKind::Index(tok))
        } else {
            None
        }
    }

    /// The span of the field designator, without receiver and separator.
    pub fn field_range(&self) -> (r: TextRange)
        ensures
            r == self.spec_field_range(),
    {
        let n = self.syntax();
        match self.name_ref() {
            Some(nr) => {
                proof {
                    NameRef::lemma_view_of(n.node_at(self.name_index().unwrap()));
                    n.lemma_node_at(self.name_index().unwrap());
                    n.lemma_token_at(self.name_index().unwrap());
                }
                nr.syntax().text_range()
            },
            None => match self.index_token() {
                Some(tok) => {
                    proof {
                        n.lemma_node_at(self.index_index().unwrap());
                        n.lemma_token_at(self.index_index().unwrap());
                    }
                    let range = tok.text_range();
                    TextRange::from_to(range.start() + 1, range.end())
                },
                None => {
                    let start = n.text_range().start();
                    TextRange::from_to(start, start)
                },
            },
        }
    }
}

/// The category of a literal.
#[derive(Clone, Copy, Debug, PartialEq, Eq, Hash, Structural)]
pub enum LiteralKind {
    String,
    IntNumber,
    FloatNumber,
    Bool,
}

/// The literal category that a token kind denotes.
pub open spec fn literal_kind_of(k: SyntaxKind) -> Option<LiteralKind> {
    match k {
        SyntaxKind::STRING => Some(LiteralKind::String),
        SyntaxKind::FLOAT_NUMBER => Some(LiteralKind::FloatNumber),
        SyntaxKind::INT_NUMBER => Some(LiteralKind::IntNumber),
        SyntaxKind::TRUE_KW | SyntaxKind::FALSE_KW => Some(LiteralKind::Bool),
        _ => None,
    }
}

impl LiteralKind {
    pub fn from_kind(k: SyntaxKind) -> (r: Option<LiteralKind>)
        ensures
            r == literal_kind_of(k),
    {
        match k {
            SyntaxKind::STRING => Some(LiteralKind::String),
            SyntaxKind::FLOAT_NUMBER => Some(LiteralKind::FloatNumber),
            SyntaxKind::INT_NUMBER => Some(LiteralKind::IntNumber),
            SyntaxKind::TRUE_KW | SyntaxKind::FALSE_KW => Some(LiteralKind::Bool),
            _ => None,
        }
    }
}

/// The first entry of `cs` that is not trivia.
pub open spec fn first_non_trivia(es: Seq<Element>, cs: Seq<usize>) -> Option<usize>
    decreases cs.len(),
{
    if cs.len() == 0 {
        None
    } else if !spec_is_trivia(es[cs[0] as int].kind) {
        Some(cs[0])
    } else {
        first_non_trivia(es, cs.drop_first())
    }
}

impl<'a> Literal<'a> {
    /// The arena index of the first child that is not trivia.
    pub open spec fn token_index(self) -> Option<usize> {
        first_non_trivia(self.node().elems(), self.node().kids())
    }

    /// The first child that is not trivia exists and is a token: the shape
    /// that every literal a parser builds has.
    pub open spec fn has_token(self) -> bool {
        self.token_index() matches Some(i) && self.node().elems()[i as int].is_token
    }

    /// The literal's token is one of the four literal kinds.
    pub open spec fn has_known_kind(self) -> bool {
        self.has_token() && literal_kind_of(self.node().elems()[self.token_index().unwrap() as int].kind) is Some
    }

    /// The first child that is not trivia.
    pub fn token(&self) -> (r: SyntaxToken<'a>)
        requires
            self.has_token(),
        ensures
            r == self.node().token_at(self.token_index().unwrap()),
    {
        let n = self.syntax();
        let ghost cs = n.kids();
        let ghost es = n.elems();
        let count = n.child_count();
        let mut j: usize = 0;
        assert(cs.subrange(0, cs.len() as int) =~= cs);
        loop
            invariant
                n == self.node(),
                count == cs.len(),
                cs == n.kids(),
                es == n.elems(),
                j <= count,
                first_non_trivia(es, cs) == first_non_trivia(es, cs.subrange(j as int, cs.len() as int)),
                first_non_trivia(es, cs) matches Some(i) && es[i as int].is_token,
            decreases count - j,
        {
            let c = n.child(j);
            proof {
                let rest = cs.subrange(j as int, cs.len() as int);
                assert(rest.drop_first() =~= cs.subrange(j + 1, cs.len() as int));
                assert(rest[0] == cs[j as int]);
                n.lemma_node_at(cs[j as int]);
                n.lemma_token_at(cs[j as int]);
            }
            if !c.kind().is_trivia() {
                if let SyntaxElement::Token(t) = c {
                    return t;
                }
            }
            j = j + 1;
        }
    }

    /// The literal's category, from its token's kind.
    pub fn kind(&self) -> (r: LiteralKind)
        requires
            self.has_known_kind(),
        ensures
            Some(r) == literal_kind_of(self.node().elems()[self.token_index().unwrap() as int].kind),
    {
        let t = self.token();
        proof {
            self.node().lemma_node_at(self.token_index().unwrap());
            self.node().lemma_token_at(self.token_index().unwrap());
        }
        LiteralKind::from_kind(t.kind()).unwrap()
    }
}

/// The two shapes of an else continuation.
#[derive(Clone, Copy)]
pub enum ElseBranch<'a> {
    /// A final `else { .. }`.
    Block(BlockExpr<'a>),
    /// A chained `else if ..`.
    IfExpr(IfExpr<'a>),
}

impl<'a> IfExpr<'a> {
    /// Arena indices of the block children, in order.
    pub open spec fn block_indices(self) -> Seq<usize> {
        children_where_spec(self.node(), ChildFilter::OfKind(SyntaxKind::BLOCK_EXPR))
    }

    /// Arena indices of the nested conditional children, in order.
    pub open spec fn nested_if_indices(self) -> Seq<usize> {
        children_where_spec(self.node(), ChildFilter::OfKind(SyntaxKind::IF_EXPR))
    }

    pub open spec fn spec_then_branch(self) -> Option<BlockExpr<'a>> {
        if self.block_indices().len() > 0 {
            Some(BlockExpr::view_of(self.node().node_at(self.block_indices()[0])))
        } else {
            None
        }
    }

    pub open spec fn spec_else_branch(self) -> Option<ElseBranch<'a>> {
        if self.block_indices().len() > 1 {
            Some(ElseBranch::Block(BlockExpr::view_of(self.node().node_at(self.block_indices()[1]))))
        } else if self.nested_if_indices().len() > 0 {
            Some(ElseBranch::IfExpr(IfExpr::view_of(self.node().node_at(self.nested_if_indices()[0]))))
        } else {
            None
        }
    }

    /// The first block child.
    pub fn then_branch(&self) -> (r: Option<BlockExpr<'a>>)
        ensures
            r == self.spec_then_branch(),
    {
        let b = self.blocks();
        if b.len() > 0 {
            Some(b[0])
        } else {
            None
        }
    }

    /// A second block child as a final else block; without one, the first
    /// nested conditional child as an else-if; else `None`.
    pub fn else_branch(&self) -> (r: Option<ElseBranch<'a>>)
        ensures
            r == self.spec_else_branch(),
    {
        let b = self.blocks();
        if b.len() > 1 {
            return Some(ElseBranch::Block(b[1]));
        }
        let n = self.syntax();
        let ifs = children_where(&n, ChildFilter::OfKind(SyntaxKind::IF_EXPR));
        if ifs.len() > 0 {
            proof {
                n.lemma_node_at(self.nested_if_indices()[0]);
                n.lemma_token_at(self.nested_if_indices()[0]);
            }
            match IfExpr::cast(ifs[0]) {
                Some(elif) => Some(ElseBranch::IfExpr(elif)),
                None => None,
            }
        } else {
            None
        }
    }

    /// The block children, in order.
    fn blocks(&self) -> (r: Vec<BlockExpr<'a>>)
        ensures
            r@.len() == self.block_indices().len(),
            forall|k: int|
                0 <= k < r@.len() ==> #[trigger] r@[k] == BlockExpr::view_of(
                    self.node().node_at(self.block_indices()[k]),
                ),
    {
        let n = self.syntax();
        let v = children_where(&n, ChildFilter::OfKind(SyntaxKind::BLOCK_EXPR));
        let ghost f = self.block_indices();
        let mut out: Vec<BlockExpr<'a>> = Vec::new();
        let mut k: usize = 0;
        while k < v.len()
            invariant
                n == self.node(),
                f == children_where_spec(n, ChildFilter::OfKind(SyntaxKind::BLOCK_EXPR)),
                v@.len() == f.len(),
                forall|m: int| 0 <= m < v@.len() ==> #[trigger] v@[m] == n.node_at(f[m]),
                forall|m: int|
                    0 <= m < v@.len() ==> (#[trigger] f[m]) < n.elems().len() && n.elems()[f[m] as int].kind
                        == SyntaxKind::BLOCK_EXPR,
                k <= v@.len(),
                out@.len() == k,
                forall|m: int|
                    0 <= m < k ==> #[trigger] out@[m] == BlockExpr::view_of(n.node_at(f[m])),
            decreases v@.len() - k,
        {
            proof {
                n.lemma_node_at(f[k as int]);
                n.lemma_token_at(f[k as int]);
                assert(f[k as int] < n.elems().len());
            }
            match BlockExpr::cast(v[k]) {
                Some(b) => out.push(b),
                None => {},
            }
            k = k + 1;
        }
        out
    }
}

/// Queries keep no state: each answer is a function of the node read, so
/// two views of one node, or one view asked twice, answer alike.
pub proof fn lemma_prefix_queries_repeatable<'a>(a: PrefixExpr<'a>, b: PrefixExpr<'a>)
    requires
        a.node() == b.node(),
    ensures
        a.spec_op_token() == b.spec_op_token(),
        a.spec_op_kind() == b.spec_op_kind(),
{
}

/// Queries of a binary expression are a function of its node.
pub proof fn lemma_bin_queries_repeatable<'a>(a: BinExpr<'a>, b: BinExpr<'a>)
    requires
        a.node() == b.node(),
    ensures
        a.spec_op_details() == b.spec_op_details(),
        a.spec_op_kind() == b.spec_op_kind(),
        a.spec_op_token() == b.spec_op_token(),
        a.spec_operand(0) == b.spec_operand(0),
        a.spec_operand(1) == b.spec_operand(1),
{
}

/// Queries of a field access are a function of its node.
pub proof fn lemma_field_queries_repeatable<'a>(a: FieldExpr<'a>, b: FieldExpr<'a>)
    requires
        a.node() == b.node(),
    ensures
        a.spec_name_ref() == b.spec_name_ref(),
        a.spec_index_token() == b.spec_index_token(),
        a.spec_field_access() == b.spec_field_access(),
        a.spec_field_range() == b.spec_field_range(),
{
}

/// Queries of a literal are a function of its node.
pub proof fn lemma_literal_queries_repeatable<'a>(a: Literal<'a>, b: Literal<'a>)
    requires
        a.node() == b.node(),
    ensures
        a.token_index() == b.token_index(),
        a.has_known_kind() == b.has_known_kind(),
        a.has_known_kind() ==> literal_kind_of(
            a.node().elems()[a.token_index().unwrap() as int].kind,
        ) == literal_kind_of(b.node().elems()[b.token_index().unwrap() as int].kind),
{
}

/// Queries of a conditional are a function of its node.
pub proof fn lemma_if_queries_repeatable<'a>(a: IfExpr<'a>, b: IfExpr<'a>)
    requires
        a.node() == b.node(),
    ensures
        a.spec_then_branch() == b.spec_then_branch(),
        a.spec_else_branch() == b.spec_else_branch(),
{
}

/// Entry `a` ends before entry `b` starts.
pub open spec fn ends_before(es: Seq<Element>, a: usize, b: usize) -> bool {
    es[a as int].range.end <= es[b as int].range.start
}

/// Entry `c` lies within the range of entry `n`.
pub open spec fn lies_within(es: Seq<Element>, c: usize, n: int) -> bool {
    es[n].range.start <= es[c as int].range.start && es[c as int].range.end <= es[n].range.end
}

/// The two operands of a binary expression are distinct children that lie
/// within it, the first ending before the second starts; the operator token
/// is neither of them and overlaps neither.
pub proof fn lemma_operands_ordered<'a>(e: BinExpr<'a>)
    requires
        e.node().valid(),
        e.spec_operand(0) is Some,
        e.spec_operand(1) is Some,
    ensures
        children_where_spec(e.node(), ChildFilter::AnyExpr)[0] < children_where_spec(
            e.node(),
            ChildFilter::AnyExpr,
        )[1],
        ends_before(
            e.node().elems(),
            children_where_spec(e.node(), ChildFilter::AnyExpr)[0],
            children_where_spec(e.node(), ChildFilter::AnyExpr)[1],
        ),
        lies_within(e.node().elems(), children_where_spec(e.node(), ChildFilter::AnyExpr)[0], e.node().id()),
        lies_within(e.node().elems(), children_where_spec(e.node(), ChildFilter::AnyExpr)[1], e.node().id()),
        e.op_index() matches Some(t) ==> {
            let es = e.node().elems();
            let a = children_where_spec(e.node(), ChildFilter::AnyExpr)[0];
            let b = children_where_spec(e.node(), ChildFilter::AnyExpr)[1];
            &&& t != a && t != b
            &&& ends_before(es, a, t) || ends_before(es, t, a)
            &&& ends_before(es, b, t) || ends_before(es, t, b)
            &&& lies_within(es, t, e.node().id())
        },
{
    let n = e.node();
    let es = n.elems();
    let cs = n.kids();
    let f = children_where_spec(n, ChildFilter::AnyExpr);
    n.lemma_kids_ordered();
    lemma_nodes_where_ordered(es, cs, ChildFilter::AnyExpr, 0, 1);
    lemma_nodes_where_member(es, cs, ChildFilter::AnyExpr, 0);
    lemma_nodes_where_member(es, cs, ChildFilter::AnyExpr, 1);
    let pa = choose|p: int| 0 <= p < cs.len() && cs[p] == f[0];
    let pb = choose|p: int| 0 <= p < cs.len() && cs[p] == f[1];
    n.lemma_child_within(pa);
    n.lemma_child_within(pb);
    if let Some(t) = e.op_index() {
        lemma_first_bin_op(es, cs);
        lemma_first_bin_op_member(es, cs);
        let pt = choose|p: int| 0 <= p < cs.len() && cs[p] == t;
        n.lemma_child_within(pt);
        assert(selected(es, f[0], ChildFilter::AnyExpr));
        assert(selected(es, f[1], ChildFilter::AnyExpr));
        assert(pt != pa && pt != pb);
        if pt < pa {
            assert(cs[pt] < cs[pa]);
        } else {
            assert(cs[pa] < cs[pt]);
        }
        if pt < pb {
            assert(cs[pt] < cs[pb]);
        } else {
            assert(cs[pb] < cs[pt]);
        }
    }
}

/// The designator's span lies within the field access node.
pub proof fn lemma_field_range_within<'a>(e: FieldExpr<'a>)
    requires
        e.node().valid(),
    ensures
        e.node().elems()[e.node().id()].range.start <= e.spec_field_range().start,
        e.spec_field_range().start <= e.spec_field_range().end,
        e.spec_field_range().end <= e.node().elems()[e.node().id()].range.end,
{
    let n = e.node();
    let es = n.elems();
    let cs = n.kids();
    assert(element_wf(es, n.id()));
    if let Some(i) = e.name_index() {
        lemma_nodes_where_member(es, cs, ChildFilter::OfKind(SyntaxKind::NAME_REF), 0);
        let p = choose|p: int| 0 <= p < cs.len() && cs[p] == i;
        n.lemma_child_within(p);
        assert(element_wf(es, i as int));
    } else if let Some(i) = e.index_index() {
        lemma_first_of_kind_member(es, cs, SyntaxKind::INDEX);
        let p = choose|p: int| 0 <= p < cs.len() && cs[p] == i;
        n.lemma_child_within(p);
        assert(element_wf(es, i as int));
    }
}

/// The then block ends before the else block starts, and they are distinct.
pub proof fn lemma_then_before_else<'a>(e: IfExpr<'a>)
    requires
        e.node().valid(),
        e.block_indices().len() > 1,
    ensures
        e.block_indices()[0] < e.block_indices()[1],
        ends_before(e.node().elems(), e.block_indices()[0], e.block_indices()[1]),
{
    e.node().lemma_kids_ordered();
    lemma_nodes_where_ordered(
        e.node().elems(),
        e.node().kids(),
        ChildFilter::OfKind(SyntaxKind::BLOCK_EXPR),
        0,
        1,
    );
}

/// An else-if continues with a valid conditional that is a child of this
/// one, so it comes earlier in the arena: following else-if links ends.
pub proof fn lemma_else_if_is_child<'a>(e: IfExpr<'a>)
    requires
        e.node().valid(),
    ensures
        e.spec_else_branch() matches Some(ElseBranch::IfExpr(v)) ==> {
            &&& v.node().elems() == e.node().elems()
            &&& v.node().id() < e.node().id()
            &&& v.node().valid()
        },
{
    let n = e.node();
    let es = n.elems();
    let cs = n.kids();
    if e.block_indices().len() <= 1 && e.nested_if_indices().len() > 0 {
        let i = e.nested_if_indices()[0];
        lemma_nodes_where_member(es, cs, ChildFilter::OfKind(SyntaxKind::IF_EXPR), 0);
        let p = choose|p: int| 0 <= p < cs.len() && cs[p] == i;
        n.lemma_child_within(p);
    }
}

} // verus!
