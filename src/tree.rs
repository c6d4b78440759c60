use vstd::prelude::*;
use crate::syntax_kind::SyntaxKind;

verus! {

/// A half-open span `[start, end)` of source text, in bytes.
#[derive(Clone, Copy, Debug, PartialEq, Eq, Structural)]
pub struct TextRange {
    pub start: usize,
    pub end: usize,
}

impl TextRange {
    pub fn from_to(start: usize, end: usize) -> (r: TextRange)
        requires
            start <= end,
        ensures
            r == (TextRange { start, end }),
    {
        TextRange { start, end }
    }

    pub fn start(&self) -> (r: usize)
        ensures
            r == self.start,
    {
        self.start
    }

    pub fn end(&self) -> (r: usize)
        ensures
            r == self.end,
    {
        self.end
    }
}

/// One entry of the tree's arena: a token (with its text) or a node (with
/// the arena indices of its children, in source order).
pub struct Element {
    pub kind: SyntaxKind,
    pub is_token: bool,
    pub range: TextRange,
    pub text: String,
    pub children: Vec<usize>,
}

/// Entry `i` is well formed: its range is ordered; a token is a non-empty
/// leaf; a node's children were added to the arena before it, follow each
/// other in the text, and the node spans from its first child's start to
/// its last child's end.
pub open spec fn element_wf(es: Seq<Element>, i: int) -> bool {
    let e = es[i];
    &&& e.range.start <= e.range.end
    &&& e.is_token ==> e.children@.len() == 0 && e.range.start < e.range.end
    &&& forall|j: int| 0 <= j < e.children@.len() ==> #[trigger] e.children@[j] < i
    &&& children_in_order(es, e.children@)
    &&& e.children@.len() > 0 ==> e.range.start == es[e.children@[0] as int].range.start
        && e.range.end == es[e.children@.last() as int].range.end
}

pub open spec fn elements_wf(es: Seq<Element>) -> bool {
    forall|i: int| 0 <= i < es.len() ==> #[trigger] element_wf(es, i)
}

/// Child `j` of `cs` comes before child `j + 1` in the arena, and ends
/// before it starts in the text.
pub open spec fn ends_before_next(es: Seq<Element>, cs: Seq<usize>, j: int) -> bool {
    cs[j] < cs[j + 1] && es[cs[j] as int].range.end <= es[cs[j + 1] as int].range.start
}

/// Any two of `cs` come in arena order and in text order, without overlap.
pub open spec fn pairwise_ordered(es: Seq<Element>, cs: Seq<usize>) -> bool {
    forall|p: int, q: int|
        0 <= p < q < cs.len() ==> #[trigger] cs[p] < #[trigger] cs[q] && es[cs[p] as int].range.end
            <= es[cs[q] as int].range.start
}

/// Children `cs` follow each other in the text without overlap.
pub open spec fn children_in_order(es: Seq<Element>, cs: Seq<usize>) -> bool {
    forall|j: int| 0 <= j < cs.len() - 1 ==> #[trigger] ends_before_next(es, cs, j)
}

/// Appending an entry that is itself well formed keeps the arena well formed.
proof fn lemma_push_wf(es: Seq<Element>, e: Element)
    requires
        elements_wf(es),
        element_wf(es.push(e), es.len() as int),
    ensures
        elements_wf(es.push(e)),
{
    let ns = es.push(e);
    assert forall|i: int| 0 <= i < ns.len() implies #[trigger] element_wf(ns, i) by {
        if i < es.len() {
            assert(element_wf(es, i));
            let cs = es[i].children@;
            assert(ns[i] == es[i]);
            assert forall|j: int| 0 <= j < cs.len() - 1 implies #[trigger] ends_before_next(ns, cs, j) by {
                assert(ends_before_next(es, cs, j));
                assert(cs[j] < i && cs[j + 1] < i);
            }
            if cs.len() > 0 {
                assert(cs[0] < i);
                assert(cs[cs.len() - 1] < i);
            }
        }
    }
}

/// An immutable-once-built syntax tree, stored as an arena of elements
/// addressed by index. Elements are added bottom-up: tokens in source order,
/// and each node after its children.
pub struct SyntaxTree {
    elements: Vec<Element>,
    text_len: usize,
}

impl View for SyntaxTree {
    type V = Seq<Element>;

    closed spec fn view(&self) -> Seq<Element> {
        self.elements@
    }
}

impl SyntaxTree {
    #[verifier::type_invariant]
    closed spec fn inv(self) -> bool {
        &&& elements_wf(self.elements@)
        &&& forall|i: int|
            0 <= i < self.elements@.len() ==> #[trigger] self.elements@[i].range.end <= self.text_len
    }

    /// Length of the text covered by the tokens added so far.
    pub closed spec fn end_offset(self) -> nat {
        self.text_len as nat
    }

    pub fn new() -> (r: SyntaxTree)
        ensures
            r@ == Seq::<Element>::empty(),
            r.end_offset() == 0,
    {
        SyntaxTree { elements: Vec::new(), text_len: 0 }
    }

    pub fn len(&self) -> (r: usize)
        ensures
            r == self@.len(),
    {
        self.elements.len()
    }

    pub fn text_len(&self) -> (r: usize)
        ensures
            r == self.end_offset(),
    {
        self.text_len
    }

    /// Appends a token of the given kind and text, placed right after the
    /// text covered so far. Refused for empty text, and where the new end
    /// offset would not fit in `usize`.
    pub fn add_token(&mut self, kind: SyntaxKind, text: &str) -> (r: Option<usize>)
        ensures
            r is None <==> (text.len() == 0 || old(self).end_offset()
                + text.len() > usize::MAX),
            r is None ==> final(self)@ == old(self)@ && final(self).end_offset()
                == old(self).end_offset(),
            r matches Some(id) ==> {
                &&& id == old(self)@.len()
                &&& final(self)@.len() == id + 1
                &&& final(self)@.subrange(0, id as int) == old(self)@
                &&& final(self)@[id as int].kind == kind
                &&& final(self)@[id as int].is_token
                &&& final(self)@[id as int].text@ == text@
                &&& final(self)@[id as int].children@.len() == 0
                &&& final(self)@[id as int].range == (TextRange {
                    start: old(self).end_offset() as usize,
                    end: (old(self).end_offset() + text.len()) as usize,
                })
                &&& final(self).end_offset() == old(self).end_offset() + text.len()
            },
    {
        proof {
            use_type_invariant(&*self);
        }
        let ghost old_es = self.elements@;
        let w = text.len();
        if w == 0 || w > usize::MAX - self.text_len {
            return None;
        }
        let start = self.text_len;
        let id = self.elements.len();
        let e = Element {
            kind,
            is_token: true,
            range: TextRange { start, end: start + w },
            text: text.to_owned(),
            children: Vec::new(),
        };
        let ghost e_ghost = e;
        let mut es: Vec<Element> = Vec::new();
        std::mem::swap(&mut es, &mut self.elements);
        let ghost before = es@;
        assert(before == old_es);
        es.push(e);
        proof {
            assert(es@.subrange(0, id as int) =~= before);
            assert(element_wf(es@, id as int));
            lemma_push_wf(before, e_ghost);
            assert forall|i: int| 0 <= i < es@.len() implies #[trigger] es@[i].range.end
                <= start + w by {
                if i < id {
                    assert(es@[i] == before[i]);
                    assert(before[i].range.end <= start);
                }
            }
        }
        *self = SyntaxTree { elements: es, text_len: start + w };
        Some(id)
    }

    /// Appends a node of the given kind over the given children. Refused
    /// where a child is not yet in the arena, or where the children do not
    /// follow each other, in arena order and in the text. The node spans from its first child's
    /// start to its last child's end; without children it is empty and sits
    /// at the end of the text covered so far.
    pub fn add_node(&mut self, kind: SyntaxKind, children: Vec<usize>) -> (r: Option<usize>)
        ensures
            r is Some <==> ((forall|j: int|
                0 <= j < children@.len() ==> #[trigger] children@[j] < old(self)@.len())
                && children_in_order(old(self)@, children@)),
            final(self).end_offset() == old(self).end_offset(),
            r is None ==> final(self)@ == old(self)@,
            r matches Some(id) ==> {
                &&& id == old(self)@.len()
                &&& final(self)@.len() == id + 1
                &&& final(self)@.subrange(0, id as int) == old(self)@
                &&& final(self)@[id as int].kind == kind
                &&& !final(self)@[id as int].is_token
                &&& final(self)@[id as int].children@ == children@
                &&& final(self)@[id as int].range == span_of(
                    old(self)@,
                    children@,
                    old(self).end_offset(),
                )
            },
    {
        proof {
            use_type_invariant(&*self);
        }
        let ghost old_es = self.elements@;
        let n = self.elements.len();
        let tl = self.text_len;
        if !self.fits_as_children(&children) {
            return None;
        }
        proof {
            if children@.len() > 0 {
                self.lemma_span_ordered(children@, (children@.len() - 1) as int);
            }
        }
        let range = if children.len() == 0 {
            TextRange { start: self.text_len, end: self.text_len }
        } else {
            let first = children[0];
            let last = children[children.len() - 1];
            TextRange { start: self.elements[first].range.start, end: self.elements[last].range.end }
        };
        let e = Element { kind, is_token: false, range, text: String::new(), children };
        let ghost e_ghost = e;
        let mut es: Vec<Element> = Vec::new();
        std::mem::swap(&mut es, &mut self.elements);
        let ghost before = es@;
        assert(before == old_es);
        es.push(e);
        proof {
            assert(es@.subrange(0, n as int) =~= before);
            let cs = e_ghost.children@;
            assert forall|j: int| 0 <= j < cs.len() - 1 implies #[trigger] ends_before_next(es@, cs, j) by {
                assert(ends_before_next(before, cs, j));
            }
            assert(element_wf(es@, n as int));
            lemma_push_wf(before, e_ghost);
            assert forall|i: int| 0 <= i < es@.len() implies #[trigger] es@[i].range.end
                <= tl by {
                if i < n {
                    assert(es@[i] == before[i]);
                    assert(before[i].range.end <= tl);
                } else if es@[i].children@.len() > 0 {
                    let last = es@[i].children@[es@[i].children@.len() - 1] as int;
                    assert(before[last].range.end <= tl);
                }
            }
        }
        *self = SyntaxTree { elements: es, text_len: tl };
        Some(n)
    }

    /// All of `cs` are in the arena and follow each other in the text.
    fn fits_as_children(&self, cs: &Vec<usize>) -> (r: bool)
        ensures
            r == ((forall|j: int| 0 <= j < cs@.len() ==> #[trigger] cs@[j] < self@.len())
                && children_in_order(self@, cs@)),
    {
        let n = self.elements.len();
        let mut j: usize = 0;
        while j < cs.len()
            invariant
                n == self@.len(),
                j <= cs@.len(),
                forall|k: int| 0 <= k < j ==> #[trigger] cs@[k] < n,
                children_in_order(self@, cs@.subrange(0, j as int)),
            decreases cs@.len() - j,
        {
            let c = cs[j];
            if c >= n {
                return false;
            }
            if j > 0 {
                let p = cs[j - 1];
                if p >= c || self.elements[p].range.end > self.elements[c].range.start {
                    assert(!ends_before_next(self@, cs@, j - 1));
                    return false;
                }
            }
            proof {
                let prev = cs@.subrange(0, j as int);
                let next = cs@.subrange(0, j + 1);
                assert forall|k: int| 0 <= k < next.len() - 1 implies #[trigger] ends_before_next(self@, next, k) by {
                    if k < j - 1 {
                        assert(ends_before_next(self@, prev, k));
                    } else {
                        assert(next[k] == cs@[j - 1]);
                    }
                }
            }
            j = j + 1;
        }
        assert(cs@.subrange(0, j as int) =~= cs@);
        true
    }

    /// In an arena whose ranges are ordered, children that follow each other
    /// span from the first one's start to the `k`-th one's end in order.
    proof fn lemma_span_ordered(&self, cs: Seq<usize>, k: int)
        requires
            elements_wf(self@),
            0 <= k < cs.len(),
            forall|j: int| 0 <= j < cs.len() ==> #[trigger] cs[j] < self@.len(),
            children_in_order(self@, cs),
        ensures
            self@[cs[0] as int].range.start <= self@[cs[k] as int].range.end,
        decreases k,
    {
        assert(element_wf(self@, cs[k] as int));
        if k > 0 {
            self.lemma_span_ordered(cs, k - 1);
            assert(ends_before_next(self@, cs, k - 1));
        }
    }

    /// The node at arena index `i`, if there is one.
    pub fn node(&self, i: usize) -> (r: Option<SyntaxNode<'_>>)
        ensures
            r is Some <==> (i < self@.len() && !self@[i as int].is_token),
            r matches Some(n) ==> n.elems() == self@ && n.id() == i,
            elements_wf(self@),
    {
        proof {
            use_type_invariant(self);
        }
        if i < self.elements.len() && !self.elements[i].is_token {
            Some(SyntaxNode { tree: self, index: i })
        } else {
            None
        }
    }

    /// The token at arena index `i`, if there is one.
    pub fn token(&self, i: usize) -> (r: Option<SyntaxToken<'_>>)
        ensures
            r is Some <==> (i < self@.len() && self@[i as int].is_token),
            r matches Some(t) ==> t.elems() == self@ && t.id() == i,
            elements_wf(self@),
    {
        proof {
            use_type_invariant(self);
        }
        if i < self.elements.len() && self.elements[i].is_token {
            Some(SyntaxToken { tree: self, index: i })
        } else {
            None
        }
    }
}


/// The span of a node over children `cs`, in an arena whose tokens cover
/// text up to `end`.
pub open spec fn span_of(es: Seq<Element>, cs: Seq<usize>, end: nat) -> TextRange {
    if cs.len() == 0 {
        TextRange { start: end as usize, end: end as usize }
    } else {
        TextRange { start: es[cs[0] as int].range.start, end: es[cs.last() as int].range.end }
    }
}

/// A handle on a node of a tree: the tree and the node's arena index.
#[derive(Clone, Copy)]
pub struct SyntaxNode<'a> {
    tree: &'a SyntaxTree,
    index: usize,
}

/// A handle on a token of a tree.
#[derive(Clone, Copy)]
pub struct SyntaxToken<'a> {
    tree: &'a SyntaxTree,
    index: usize,
}

/// A child of a node: a node or a token.
#[derive(Clone, Copy)]
pub enum SyntaxElement<'a> {
    Node(SyntaxNode<'a>),
    Token(SyntaxToken<'a>),
}

impl<'a> SyntaxNode<'a> {
    #[verifier::type_invariant]
    closed spec fn inv(self) -> bool {
        self.index < self.tree@.len() && !self.tree@[self.index as int].is_token
    }

    /// The arena of the tree that the node belongs to.
    pub closed spec fn elems(self) -> Seq<Element> {
        self.tree@
    }

    /// The node's arena index.
    pub closed spec fn id(self) -> int {
        self.index as int
    }

    /// The handle on arena entry `i` of the same tree, taken as a node.
    pub closed spec fn node_at(self, i: usize) -> SyntaxNode<'a> {
        SyntaxNode { tree: self.tree, index: i }
    }

    /// The handle on arena entry `i` of the same tree, taken as a token.
    pub closed spec fn token_at(self, i: usize) -> SyntaxToken<'a> {
        SyntaxToken { tree: self.tree, index: i }
    }

    pub open spec fn element_at(self, i: usize) -> SyntaxElement<'a> {
        if self.elems()[i as int].is_token {
            SyntaxElement::Token(self.token_at(i))
        } else {
            SyntaxElement::Node(self.node_at(i))
        }
    }

    /// The arena indices of the node's children, nodes and tokens, in order.
    pub open spec fn kids(self) -> Seq<usize> {
        self.elems()[self.id()].children@
    }

    /// What every node handle satisfies: its arena is well formed and it
    /// names a node entry of it.
    pub open spec fn valid(self) -> bool {
        &&& elements_wf(self.elems())
        &&& 0 <= self.id() < self.elems().len()
        &&& !self.elems()[self.id()].is_token
    }

    /// Children come before their parent in the arena; the `j`-th child
    /// ends before the `k`-th starts, for `j < k`.
    pub proof fn lemma_children_ordered(self, j: int, k: int)
        requires
            self.valid(),
            0 <= j < k < self.kids().len(),
        ensures
            self.kids()[j] < self.kids()[k] < self.id(),
            self.elems()[self.kids()[j] as int].range.end <= self.elems()[self.kids()[k] as int].range.start,
        decreases k - j,
    {
        let es = self.elems();
        let cs = self.kids();
        assert(element_wf(es, self.id()));
        assert(ends_before_next(es, cs, k - 1));
        assert(cs[k] < self.id());
        if k > j + 1 {
            self.lemma_children_ordered(j, k - 1);
            assert(element_wf(es, cs[k - 1] as int));
        }
    }

    /// The children of a node, taken two by two, are ordered.
    pub proof fn lemma_kids_ordered(self)
        requires
            self.valid(),
        ensures
            pairwise_ordered(self.elems(), self.kids()),
    {
        assert forall|p: int, q: int| 0 <= p < q < self.kids().len() implies #[trigger] self.kids()[p]
            < #[trigger] self.kids()[q] && self.elems()[self.kids()[p] as int].range.end
            <= self.elems()[self.kids()[q] as int].range.start by {
            self.lemma_children_ordered(p, q);
        }
    }

    /// A child sits inside its parent: before it in the arena, within its
    /// range in the text.
    pub proof fn lemma_child_within(self, j: int)
        requires
            self.valid(),
            0 <= j < self.kids().len(),
        ensures
            self.kids()[j] < self.id(),
            self.elems()[self.id()].range.start <= self.elems()[self.kids()[j] as int].range.start,
            self.elems()[self.kids()[j] as int].range.end <= self.elems()[self.id()].range.end,
    {
        let es = self.elems();
        let cs = self.kids();
        let last = cs.len() - 1;
        assert(element_wf(es, self.id()));
        assert(element_wf(es, cs[j] as int));
        assert(element_wf(es, cs[0] as int));
        assert(element_wf(es, cs[last] as int));
        if j > 0 {
            self.lemma_children_ordered(0, j);
        }
        if j < last {
            self.lemma_children_ordered(j, last);
        }
    }

    /// A node handle taken at entry `i` reads the same arena, at index `i`.
    pub broadcast proof fn lemma_node_at(self, i: usize)
        ensures
            (#[trigger] self.node_at(i)).elems() == self.elems(),
            self.node_at(i).id() == i,
    {
    }

    /// A token handle taken at entry `i` reads the same arena, at index `i`.
    pub broadcast proof fn lemma_token_at(self, i: usize)
        ensures
            (#[trigger] self.token_at(i)).elems() == self.elems(),
            self.token_at(i).id() == i,
    {
    }

    pub fn kind(&self) -> (r: SyntaxKind)
        ensures
            r == self.elems()[self.id()].kind,
            self.valid(),
    {
        proof {
            use_type_invariant(self);
            use_type_invariant(self.tree);
        }
        self.tree.elements[self.index].kind
    }

    pub fn text_range(&self) -> (r: TextRange)
        ensures
            r == self.elems()[self.id()].range,
            self.valid(),
    {
        proof {
            use_type_invariant(self);
            use_type_invariant(self.tree);
        }
        self.tree.elements[self.index].range
    }

    /// The node's arena index.
    pub fn index(&self) -> (r: usize)
        ensures
            r == self.id(),
    {
        self.index
    }

    /// Number of children, nodes and tokens.
    pub fn child_count(&self) -> (r: usize)
        ensures
            r == self.kids().len(),
            self.valid(),
    {
        proof {
            use_type_invariant(self);
            use_type_invariant(self.tree);
        }
        self.tree.elements[self.index].children.len()
    }

    /// The `j`-th child, node or token.
    pub fn child(&self, j: usize) -> (r: SyntaxElement<'a>)
        requires
            j < self.kids().len(),
        ensures
            r == self.element_at(self.kids()[j as int]),
            self.kids()[j as int] < self.elems().len(),
            self.valid(),
    {
        proof {
            use_type_invariant(self);
            use_type_invariant(self.tree);
            assert(element_wf(self.tree.elements@, self.index as int));
        }
        let c = self.tree.elements[self.index].children[j];
        if self.tree.elements[c].is_token {
            SyntaxElement::Token(SyntaxToken { tree: self.tree, index: c })
        } else {
            SyntaxElement::Node(SyntaxNode { tree: self.tree, index: c })
        }
    }
}

impl<'a> SyntaxToken<'a> {
    #[verifier::type_invariant]
    closed spec fn inv(self) -> bool {
        self.index < self.tree@.len() && self.tree@[self.index as int].is_token
    }

    /// The arena of the tree that the token belongs to.
    pub closed spec fn elems(self) -> Seq<Element> {
        self.tree@
    }

    /// The token's arena index.
    pub closed spec fn id(self) -> int {
        self.index as int
    }

    pub fn kind(&self) -> (r: SyntaxKind)
        ensures
            r == self.elems()[self.id()].kind,
    {
        proof {
            use_type_invariant(self);
        }
        self.tree.elements[self.index].kind
    }

    pub fn text_range(&self) -> (r: TextRange)
        ensures
            r == self.elems()[self.id()].range,
            r.start < r.end,
    {
        proof {
            use_type_invariant(self);
            use_type_invariant(self.tree);
            assert(element_wf(self.tree.elements@, self.index as int));
        }
        self.tree.elements[self.index].range
    }

    pub fn text(&self) -> (r: &'a str)
        ensures
            r@ == self.elems()[self.id()].text@,
    {
        proof {
            use_type_invariant(self);
        }
        self.tree.elements[self.index].text.as_str()
    }

    /// The token's arena index.
    pub fn index(&self) -> (r: usize)
        ensures
            r == self.id(),
    {
        self.index
    }
}

impl<'a> SyntaxElement<'a> {
    pub open spec fn elems(self) -> Seq<Element> {
        match self {
            SyntaxElement::Node(n) => n.elems(),
            SyntaxElement::Token(t) => t.elems(),
        }
    }

    pub open spec fn id(self) -> int {
        match self {
            SyntaxElement::Node(n) => n.id(),
            SyntaxElement::Token(t) => t.id(),
        }
    }

    pub fn kind(&self) -> (r: SyntaxKind)
        ensures
            r == self.elems()[self.id()].kind,
    {
        match self {
            SyntaxElement::Node(n) => n.kind(),
            SyntaxElement::Token(t) => t.kind(),
        }
    }
}

} // verus!
