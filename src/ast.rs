use vstd::prelude::*;
use crate::syntax_kind::{spec_is_expr, SyntaxKind};
use crate::tree::{pairwise_ordered, Element, SyntaxElement, SyntaxNode};

verus! {

/// Which node children a query selects.
#[derive(Clone, Copy, Debug, PartialEq, Eq, Structural)]
pub enum ChildFilter {
    /// Nodes of any expression kind.
    AnyExpr,
    /// Nodes of exactly this kind.
    OfKind(SyntaxKind),
}

impl ChildFilter {
    pub open spec fn admits(self, k: SyntaxKind) -> bool {
        match self {
            ChildFilter::AnyExpr => spec_is_expr(k),
            ChildFilter::OfKind(want) => k == want,
        }
    }

    pub fn accepts(self, k: SyntaxKind) -> (r: bool)
        ensures
            r == self.admits(k),
    {
        match self {
            ChildFilter::AnyExpr => k.is_expr(),
            ChildFilter::OfKind(want) => k == want,
        }
    }
}

/// Arena entry `c` is a node that `f` selects.
pub open spec fn selected(es: Seq<Element>, c: usize, f: ChildFilter) -> bool {
    !es[c as int].is_token && f.admits(es[c as int].kind)
}

/// The entries of `cs` that are nodes selected by `f`, in order.
pub open spec fn nodes_where(es: Seq<Element>, cs: Seq<usize>, f: ChildFilter) -> Seq<usize>
    decreases cs.len(),
{
    if cs.len() == 0 {
        Seq::empty()
    } else {
        let init = nodes_where(es, cs.drop_last(), f);
        if selected(es, cs.last(), f) {
            init.push(cs.last())
        } else {
            init
        }
    }
}

/// The node children of `n` that `f` selects, in order.
pub open spec fn children_where_spec<'a>(n: SyntaxNode<'a>, f: ChildFilter) -> Seq<usize> {
    nodes_where(n.elems(), n.kids(), f)
}

/// Every entry that a filter keeps is one of `cs`, and a node it selects.
pub proof fn lemma_nodes_where_member(es: Seq<Element>, cs: Seq<usize>, f: ChildFilter, k: int)
    requires
        0 <= k < nodes_where(es, cs, f).len(),
    ensures
        exists|p: int| 0 <= p < cs.len() && cs[p] == nodes_where(es, cs, f)[k],
        selected(es, nodes_where(es, cs, f)[k], f),
    decreases cs.len(),
{
    let init = cs.drop_last();
    let ni = nodes_where(es, init, f);
    if k < ni.len() {
        lemma_nodes_where_member(es, init, f, k);
        let p = choose|p: int| 0 <= p < init.len() && init[p] == ni[k];
        assert(cs[p] == ni[k]);
    } else {
        assert(cs[cs.len() - 1] == cs.last());
    }
}

/// A filter keeps the order of what it keeps: from children ordered two by
/// two, the kept nodes are ordered two by two.
pub proof fn lemma_nodes_where_ordered(
    es: Seq<Element>,
    cs: Seq<usize>,
    f: ChildFilter,
    k1: int,
    k2: int,
)
    requires
        pairwise_ordered(es, cs),
        0 <= k1 < k2 < nodes_where(es, cs, f).len(),
    ensures
        nodes_where(es, cs, f)[k1] < nodes_where(es, cs, f)[k2],
        es[nodes_where(es, cs, f)[k1] as int].range.end <= es[nodes_where(
            es,
            cs,
            f,
        )[k2] as int].range.start,
    decreases cs.len(),
{
    let init = cs.drop_last();
    let ni = nodes_where(es, init, f);
    assert forall|p: int, q: int| 0 <= p < q < init.len() implies #[trigger] init[p]
        < #[trigger] init[q] && es[init[p] as int].range.end <= es[init[q] as int].range.start by {
        assert(init[p] == cs[p] && init[q] == cs[q]);
    }
    if k2 < ni.len() {
        lemma_nodes_where_ordered(es, init, f, k1, k2);
    } else {
        lemma_nodes_where_member(es, init, f, k1);
        let p = choose|p: int| 0 <= p < init.len() && init[p] == ni[k1];
        let q = cs.len() - 1;
        assert(cs[p] == init[p]);
        assert(cs[p] < cs[q]);
    }
}

/// The handles on the node children of `n` that `f` selects, in order.
pub fn children_where<'a>(n: &SyntaxNode<'a>, f: ChildFilter) -> (r: Vec<SyntaxNode<'a>>)
    ensures
        r@.len() == children_where_spec(*n, f).len(),
        forall|k: int|
            0 <= k < r@.len() ==> #[trigger] r@[k] == n.node_at(children_where_spec(*n, f)[k]),
        forall|k: int|
            0 <= k < r@.len() ==> {
                &&& (#[trigger] children_where_spec(*n, f)[k]) < n.elems().len()
                &&& selected(n.elems(), children_where_spec(*n, f)[k], f)
            },
{
    let ghost cs = n.kids();
    let ghost es = n.elems();
    let count = n.child_count();
    let mut out: Vec<SyntaxNode<'a>> = Vec::new();
    let mut j: usize = 0;
    while j < count
        invariant
            count == cs.len(),
            cs == n.kids(),
            es == n.elems(),
            j <= count,
            out@.len() == nodes_where(es, cs.take(j as int), f).len(),
            forall|k: int|
                0 <= k < out@.len() ==> #[trigger] out@[k] == n.node_at(
                    nodes_where(es, cs.take(j as int), f)[k],
                ),
            forall|k: int|
                0 <= k < out@.len() ==> {
                    &&& (#[trigger] nodes_where(es, cs.take(j as int), f)[k]) < es.len()
                    &&& selected(es, nodes_where(es, cs.take(j as int), f)[k], f)
                },
        decreases count - j,
    {
        let c = n.child(j);
        proof {
            assert(cs.take(j + 1).drop_last() =~= cs.take(j as int));
            assert(cs.take(j + 1).last() == cs[j as int]);
        }
        match c {
            SyntaxElement::Node(m) => {
                proof {
                    n.lemma_node_at(cs[j as int]);
                    n.lemma_token_at(cs[j as int]);
                }
                if f.accepts(m.kind()) {
                    out.push(m);
                }
            },
            SyntaxElement::Token(_) => {},
        }
        j = j + 1;
    }
    proof {
        assert(cs.take(count as int) =~= cs);
    }
    out
}

/// The first entry of `cs` of kind `k`, node or token.
pub open spec fn first_of_kind(es: Seq<Element>, cs: Seq<usize>, k: SyntaxKind) -> Option<usize>
    decreases cs.len(),
{
    if cs.len() == 0 {
        None
    } else if es[cs[0] as int].kind == k {
        Some(cs[0])
    } else {
        first_of_kind(es, cs.drop_first(), k)
    }
}

/// What the search finds is one of `cs`, of the kind searched for.
pub proof fn lemma_first_of_kind_member(es: Seq<Element>, cs: Seq<usize>, k: SyntaxKind)
    ensures
        first_of_kind(es, cs, k) matches Some(i) ==> es[i as int].kind == k && exists|p: int|
            0 <= p < cs.len() && cs[p] == i,
    decreases cs.len(),
{
    if cs.len() > 0 {
        if es[cs[0] as int].kind == k {
            assert(cs[0] == cs[0]);
        } else {
            lemma_first_of_kind_member(es, cs.drop_first(), k);
            if let Some(i) = first_of_kind(es, cs, k) {
                let p = choose|p: int| 0 <= p < cs.drop_first().len() && cs.drop_first()[p] == i;
                assert(cs[p + 1] == i);
            }
        }
    }
}

/// The first child of `n` of kind `k`, node or token.
pub fn first_child_of_kind<'a>(n: &SyntaxNode<'a>, k: SyntaxKind) -> (r: Option<SyntaxElement<'a>>)
    ensures
        r == (match first_of_kind(n.elems(), n.kids(), k) {
            Some(i) => Some(n.element_at(i)),
            None => None,
        }),
        first_of_kind(n.elems(), n.kids(), k) matches Some(i) ==> i < n.elems().len(),
{
    let ghost cs = n.kids();
    let ghost es = n.elems();
    let count = n.child_count();
    let mut j: usize = 0;
    assert(cs.subrange(0, cs.len() as int) =~= cs);
    while j < count
        invariant
            count == cs.len(),
            cs == n.kids(),
            es == n.elems(),
            j <= count,
            first_of_kind(es, cs, k) == first_of_kind(es, cs.subrange(j as int, cs.len() as int), k),
        decreases count - j,
    {
        let c = n.child(j);
        proof {
            let rest = cs.subrange(j as int, cs.len() as int);
            assert(rest.drop_first() =~= cs.subrange(j + 1, cs.len() as int));
            assert(rest[0] == cs[j as int]);
            n.lemma_node_at(cs[j as int]);
            n.lemma_token_at(cs[j as int]);
        }
        if c.kind() == k {
            return Some(c);
        }
        j = j + 1;
    }
    None
}

/// An expression node of any kind.
#[derive(Clone, Copy)]
pub struct Expr<'a> {
    syntax: SyntaxNode<'a>,
}

impl<'a> Expr<'a> {
    pub open spec fn admits(k: SyntaxKind) -> bool {
        spec_is_expr(k)
    }

    #[verifier::type_invariant]
    closed spec fn inv(self) -> bool {
        Self::admits(self.syntax.elems()[self.syntax.id()].kind)
    }

    /// The node this view reads.
    pub closed spec fn node(self) -> SyntaxNode<'a> {
        self.syntax
    }

    /// The view over `n`, for a node `n` of a kind that it admits.
    pub closed spec fn view_of(n: SyntaxNode<'a>) -> Self {
        Expr { syntax: n }
    }

    /// The view over `n` reads `n`.
    pub broadcast proof fn lemma_view_of(n: SyntaxNode<'a>)
        ensures
            (#[trigger] Self::view_of(n)).node() == n,
    {
    }

    /// The view over `syntax` where the node's kind fits, else `None`.
    pub fn cast(syntax: SyntaxNode<'a>) -> (r: Option<Self>)
        ensures
            r == (if Self::admits(syntax.elems()[syntax.id()].kind) {
                Some(Self::view_of(syntax))
            } else {
                None
            }),
            r matches Some(v) ==> v.node() == syntax,
            syntax.valid(),
    {
        let kind = syntax.kind();
        if kind.is_expr() {
            Some(Expr { syntax })
        } else {
            None
        }
    }

    pub fn syntax(&self) -> (r: SyntaxNode<'a>)
        ensures
            r == self.node(),
    {
        self.syntax
    }
}

/// A unary operator applied to an operand: `!x`, `-x`.
#[derive(Clone, Copy)]
pub struct PrefixExpr<'a> {
    syntax: SyntaxNode<'a>,
}

impl<'a> PrefixExpr<'a> {
    pub open spec fn admits(k: SyntaxKind) -> bool {
        k == SyntaxKind::PREFIX_EXPR
    }

    #[verifier::type_invariant]
    closed spec fn inv(self) -> bool {
        Self::admits(self.syntax.elems()[self.syntax.id()].kind)
    }

    /// The node this view reads.
    pub closed spec fn node(self) -> SyntaxNode<'a> {
        self.syntax
    }

    /// The view over `n`, for a node `n` of a kind that it admits.
    pub closed spec fn view_of(n: SyntaxNode<'a>) -> Self {
        PrefixExpr { syntax: n }
    }

    /// The view over `n` reads `n`.
    pub broadcast proof fn lemma_view_of(n: SyntaxNode<'a>)
        ensures
            (#[trigger] Self::view_of(n)).node() == n,
    {
    }

    /// The view over `syntax` where the node's kind fits, else `None`.
    pub fn cast(syntax: SyntaxNode<'a>) -> (r: Option<Self>)
        ensures
            r == (if Self::admits(syntax.elems()[syntax.id()].kind) {
                Some(Self::view_of(syntax))
            } else {
                None
            }),
            r matches Some(v) ==> v.node() == syntax,
            syntax.valid(),
    {
        let kind = syntax.kind();
        if kind == SyntaxKind::PREFIX_EXPR {
            Some(PrefixExpr { syntax })
        } else {
            None
        }
    }

    pub fn syntax(&self) -> (r: SyntaxNode<'a>)
        ensures
            r == self.node(),
    {
        self.syntax
    }
}

/// A binary operator or assignment between two operands.
#[derive(Clone, Copy)]
pub struct BinExpr<'a> {
    syntax: SyntaxNode<'a>,
}

impl<'a> BinExpr<'a> {
    pub open spec fn admits(k: SyntaxKind) -> bool {
        k == SyntaxKind::BIN_EXPR
    }

    #[verifier::type_invariant]
    closed spec fn inv(self) -> bool {
        Self::admits(self.syntax.elems()[self.syntax.id()].kind)
    }

    /// The node this view reads.
    pub closed spec fn node(self) -> SyntaxNode<'a> {
        self.syntax
    }

    /// The view over `n`, for a node `n` of a kind that it admits.
    pub closed spec fn view_of(n: SyntaxNode<'a>) -> Self {
        BinExpr { syntax: n }
    }

    /// The view over `n` reads `n`.
    pub broadcast proof fn lemma_view_of(n: SyntaxNode<'a>)
        ensures
            (#[trigger] Self::view_of(n)).node() == n,
    {
    }

    /// The view over `syntax` where the node's kind fits, else `None`.
    pub fn cast(syntax: SyntaxNode<'a>) -> (r: Option<Self>)
        ensures
            r == (if Self::admits(syntax.elems()[syntax.id()].kind) {
                Some(Self::view_of(syntax))
            } else {
                None
            }),
            r matches Some(v) ==> v.node() == syntax,
            syntax.valid(),
    {
        let kind = syntax.kind();
        if kind == SyntaxKind::BIN_EXPR {
            Some(BinExpr { syntax })
        } else {
            None
        }
    }

    pub fn syntax(&self) -> (r: SyntaxNode<'a>)
        ensures
            r == self.node(),
    {
        self.syntax
    }
}

/// A field access on a receiver: `x.y`, `x.0`.
#[derive(Clone, Copy)]
pub struct FieldExpr<'a> {
    syntax: SyntaxNode<'a>,
}

impl<'a> FieldExpr<'a> {
    pub open spec fn admits(k: SyntaxKind) -> bool {
        k == SyntaxKind::FIELD_EXPR
    }

    #[verifier::type_invariant]
    closed spec fn inv(self) -> bool {
        Self::admits(self.syntax.elems()[self.syntax.id()].kind)
    }

    /// The node this view reads.
    pub closed spec fn node(self) -> SyntaxNode<'a> {
        self.syntax
    }

    /// The view over `n`, for a node `n` of a kind that it admits.
    pub closed spec fn view_of(n: SyntaxNode<'a>) -> Self {
        FieldExpr { syntax: n }
    }

    /// The view over `n` reads `n`.
    pub broadcast proof fn lemma_view_of(n: SyntaxNode<'a>)
        ensures
            (#[trigger] Self::view_of(n)).node() == n,
    {
    }

    /// The view over `syntax` where the node's kind fits, else `None`.
    pub fn cast(syntax: SyntaxNode<'a>) -> (r: Option<Self>)
        ensures
            r == (if Self::admits(syntax.elems()[syntax.id()].kind) {
                Some(Self::view_of(syntax))
            } else {
                None
            }),
            r matches Some(v) ==> v.node() == syntax,
            syntax.valid(),
    {
        let kind = syntax.kind();
        if kind == SyntaxKind::FIELD_EXPR {
            Some(FieldExpr { syntax })
        } else {
            None
        }
    }

    pub fn syntax(&self) -> (r: SyntaxNode<'a>)
        ensures
            r == self.node(),
    {
        self.syntax
    }
}

/// A literal value.
#[derive(Clone, Copy)]
pub struct Literal<'a> {
    syntax: SyntaxNode<'a>,
}

impl<'a> Literal<'a> {
    pub open spec fn admits(k: SyntaxKind) -> bool {
        k == SyntaxKind::LITERAL
    }

    #[verifier::type_invariant]
    closed spec fn inv(self) -> bool {
        Self::admits(self.syntax.elems()[self.syntax.id()].kind)
    }

    /// The node this view reads.
    pub closed spec fn node(self) -> SyntaxNode<'a> {
        self.syntax
    }

    /// The view over `n`, for a node `n` of a kind that it admits.
    pub closed spec fn view_of(n: SyntaxNode<'a>) -> Self {
        Literal { syntax: n }
    }

    /// The view over `n` reads `n`.
    pub broadcast proof fn lemma_view_of(n: SyntaxNode<'a>)
        ensures
            (#[trigger] Self::view_of(n)).node() == n,
    {
    }

    /// The view over `syntax` where the node's kind fits, else `None`.
    pub fn cast(syntax: SyntaxNode<'a>) -> (r: Option<Self>)
        ensures
            r == (if Self::admits(syntax.elems()[syntax.id()].kind) {
                Some(Self::view_of(syntax))
            } else {
                None
            }),
            r matches Some(v) ==> v.node() == syntax,
            syntax.valid(),
    {
        let kind = syntax.kind();
        if kind == SyntaxKind::LITERAL {
            Some(Literal { syntax })
        } else {
            None
        }
    }

    pub fn syntax(&self) -> (r: SyntaxNode<'a>)
        ensures
            r == self.node(),
    {
        self.syntax
    }
}

/// A conditional expression, possibly with an else branch.
#[derive(Clone, Copy)]
pub struct IfExpr<'a> {
    syntax: SyntaxNode<'a>,
}

impl<'a> IfExpr<'a> {
    pub open spec fn admits(k: SyntaxKind) -> bool {
        k == SyntaxKind::IF_EXPR
    }

    #[verifier::type_invariant]
    closed spec fn inv(self) -> bool {
        Self::admits(self.syntax.elems()[self.syntax.id()].kind)
    }

    /// The node this view reads.
    pub closed spec fn node(self) -> SyntaxNode<'a> {
        self.syntax
    }

    /// The view over `n`, for a node `n` of a kind that it admits.
    pub closed spec fn view_of(n: SyntaxNode<'a>) -> Self {
        IfExpr { syntax: n }
    }

    /// The view over `n` reads `n`.
    pub broadcast proof fn lemma_view_of(n: SyntaxNode<'a>)
        ensures
            (#[trigger] Self::view_of(n)).node() == n,
    {
    }

    /// The view over `syntax` where the node's kind fits, else `None`.
    pub fn cast(syntax: SyntaxNode<'a>) -> (r: Option<Self>)
        ensures
            r == (if Self::admits(syntax.elems()[syntax.id()].kind) {
                Some(Self::view_of(syntax))
            } else {
                None
            }),
            r matches Some(v) ==> v.node() == syntax,
            syntax.valid(),
    {
        let kind = syntax.kind();
        if kind == SyntaxKind::IF_EXPR {
            Some(IfExpr { syntax })
        } else {
            None
        }
    }

    pub fn syntax(&self) -> (r: SyntaxNode<'a>)
        ensures
            r == self.node(),
    {
        self.syntax
    }
}

/// A braced block.
#[derive(Clone, Copy)]
pub struct BlockExpr<'a> {
    syntax: SyntaxNode<'a>,
}

impl<'a> BlockExpr<'a> {
    pub open spec fn admits(k: SyntaxKind) -> bool {
        k == SyntaxKind::BLOCK_EXPR
    }

    #[verifier::type_invariant]
    closed spec fn inv(self) -> bool {
        Self::admits(self.syntax.elems()[self.syntax.id()].kind)
    }

    /// The node this view reads.
    pub closed spec fn node(self) -> SyntaxNode<'a> {
        self.syntax
    }

    /// The view over `n`, for a node `n` of a kind that it admits.
    pub closed spec fn view_of(n: SyntaxNode<'a>) -> Self {
        BlockExpr { syntax: n }
    }

    /// The view over `n` reads `n`.
    pub broadcast proof fn lemma_view_of(n: SyntaxNode<'a>)
        ensures
            (#[trigger] Self::view_of(n)).node() == n,
    {
    }

    /// The view over `syntax` where the node's kind fits, else `None`.
    pub fn cast(syntax: SyntaxNode<'a>) -> (r: Option<Self>)
        ensures
            r == (if Self::admits(syntax.elems()[syntax.id()].kind) {
                Some(Self::view_of(syntax))
            } else {
                None
            }),
            r matches Some(v) ==> v.node() == syntax,
            syntax.valid(),
    {
        let kind = syntax.kind();
        if kind == SyntaxKind::BLOCK_EXPR {
            Some(BlockExpr { syntax })
        } else {
            None
        }
    }

    pub fn syntax(&self) -> (r: SyntaxNode<'a>)
        ensures
            r == self.node(),
    {
        self.syntax
    }
}

/// A reference to a name.
#[derive(Clone, Copy)]
pub struct NameRef<'a> {
    syntax: SyntaxNode<'a>,
}

impl<'a> NameRef<'a> {
    pub open spec fn admits(k: SyntaxKind) -> bool {
        k == SyntaxKind::NAME_REF
    }

    #[verifier::type_invariant]
    closed spec fn inv(self) -> bool {
        Self::admits(self.syntax.elems()[self.syntax.id()].kind)
    }

    /// The node this view reads.
    pub closed spec fn node(self) -> SyntaxNode<'a> {
        self.syntax
    }

    /// The view over `n`, for a node `n` of a kind that it admits.
    pub closed spec fn view_of(n: SyntaxNode<'a>) -> Self {
        NameRef { syntax: n }
    }

    /// The view over `n` reads `n`.
    pub broadcast proof fn lemma_view_of(n: SyntaxNode<'a>)
        ensures
            (#[trigger] Self::view_of(n)).node() == n,
    {
    }

    /// The view over `syntax` where the node's kind fits, else `None`.
    pub fn cast(syntax: SyntaxNode<'a>) -> (r: Option<Self>)
        ensures
            r == (if Self::admits(syntax.elems()[syntax.id()].kind) {
                Some(Self::view_of(syntax))
            } else {
                None
            }),
            r matches Some(v) ==> v.node() == syntax,
            syntax.valid(),
    {
        let kind = syntax.kind();
        if kind == SyntaxKind::NAME_REF {
            Some(NameRef { syntax })
        } else {
            None
        }
    }

    pub fn syntax(&self) -> (r: SyntaxNode<'a>)
        ensures
            r == self.node(),
    {
        self.syntax
    }
}

/// The links between handles and views that callers reason with.
pub broadcast group group_views {
    SyntaxNode::lemma_node_at,
    SyntaxNode::lemma_token_at,
    Expr::lemma_view_of,
    PrefixExpr::lemma_view_of,
    BinExpr::lemma_view_of,
    FieldExpr::lemma_view_of,
    Literal::lemma_view_of,
    IfExpr::lemma_view_of,
    BlockExpr::lemma_view_of,
    NameRef::lemma_view_of,
}

} // verus!
