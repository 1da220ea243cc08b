//! An arena-backed syntax tree: every node is an index into one vector,
//! holding its kind, its text range and its ordered children.

use vstd::prelude::*;

verus! {

/// A byte offset into a document.
pub type TextSize = u32;

/// A half-open byte range `start..end` of a document.
#[derive(Clone, Copy, Debug, PartialEq, Eq, Structural)]
pub struct TextRange {
    pub start: TextSize,
    pub end: TextSize,
}

impl TextRange {
    pub open spec fn spec_contains_inclusive(self, offset: TextSize) -> bool {
        self.start <= offset && offset <= self.end
    }

    pub fn new(start: TextSize, end: TextSize) -> (r: TextRange)
        requires
            start <= end,
        ensures
            r.start == start,
            r.end == end,
    {
        TextRange { start, end }
    }

    /// Whether `offset` lies in the range, both ends included.
    pub fn contains_inclusive(&self, offset: TextSize) -> (r: bool)
        ensures
            r == self.spec_contains_inclusive(offset),
    {
        self.start <= offset && offset <= self.end
    }
}

/// The kinds of node that the module queries tell apart.
#[derive(Clone, Copy, Debug, PartialEq, Eq, Structural)]
pub enum SyntaxKind {
    /// The root of a document's tree.
    SourceFile,
    /// A `mod name;` or `mod name { ... }` declaration.
    Module,
    /// The braced body of an inline module.
    ItemList,
    /// The name of an item.
    Name,
    /// Any other node.
    Other,
}

pub struct SyntaxNode {
    pub kind: SyntaxKind,
    pub range: TextRange,
    /// Indices of the children, in textual order.
    pub children: Vec<usize>,
}

/// A parsed document. Node `0` is the root; every child has a larger index
/// than its parent, so walks down the tree always end.
pub struct SyntaxTree {
    pub nodes: Vec<SyntaxNode>,
}

impl SyntaxTree {
    pub open spec fn wf(&self) -> bool {
        &&& self.nodes@.len() > 0
        &&& forall|n: int, j: int|
            0 <= n < self.nodes@.len() && 0 <= j < self.nodes@[n].children@.len() ==> n
                < #[trigger] self.nodes@[n].children@[j] < self.nodes@.len()
    }

    pub open spec fn kind_of(&self, n: usize) -> SyntaxKind {
        self.nodes@[n as int].kind
    }

    pub open spec fn range_of(&self, n: usize) -> TextRange {
        self.nodes@[n as int].range
    }

    pub open spec fn children_of(&self, n: usize) -> Seq<usize> {
        self.nodes@[n as int].children@
    }

    /// A tree that holds only a root of kind `SourceFile` over `range`.
    pub fn new(range: TextRange) -> (r: SyntaxTree)
        ensures
            r.wf(),
            r.nodes@.len() == 1,
            r.kind_of(0) == SyntaxKind::SourceFile,
            r.range_of(0) == range,
            r.children_of(0) == Seq::<usize>::empty(),
    {
        let mut nodes: Vec<SyntaxNode> = Vec::new();
        nodes.push(SyntaxNode { kind: SyntaxKind::SourceFile, range, children: Vec::new() });
        SyntaxTree { nodes }
    }

    /// Appends a node as the last child of `parent` and returns its index.
    pub fn add_node(&mut self, parent: usize, kind: SyntaxKind, range: TextRange) -> (r: usize)
        requires
            old(self).wf(),
            parent < old(self).nodes@.len(),
            old(self).nodes@.len() < usize::MAX,
        ensures
            final(self).wf(),
            r == old(self).nodes@.len(),
            final(self).nodes@.len() == old(self).nodes@.len() + 1,
            final(self).kind_of(r) == kind,
            final(self).range_of(r) == range,
            final(self).children_of(r) == Seq::<usize>::empty(),
            final(self).children_of(parent) == old(self).children_of(parent).push(r),
            forall|n: usize|
                n < old(self).nodes@.len() ==> {
                    &&& final(self).kind_of(n) == old(self).kind_of(n)
                    &&& final(self).range_of(n) == old(self).range_of(n)
                    &&& n != parent ==> final(self).children_of(n) == old(self).children_of(n)
                },
    {
        let r = self.nodes.len();
        self.nodes.push(SyntaxNode { kind, range, children: Vec::new() });
        let mut p = self.nodes.remove(parent);
        p.children.push(r);
        self.nodes.insert(parent, p);
        r
    }
}

/// The first of `cs[i..]` whose range holds `offset`, ends included.
pub open spec fn first_holding(t: &SyntaxTree, cs: Seq<usize>, offset: TextSize, i: int) -> Option<
    usize,
>
    decreases cs.len() - i,
{
    if i < 0 || i >= cs.len() {
        None
    } else if t.range_of(cs[i]).spec_contains_inclusive(offset) {
        Some(cs[i])
    } else {
        first_holding(t, cs, offset, i + 1)
    }
}

/// The chain of nodes from `n` down to the deepest node at `offset`: each
/// step goes to the first child whose range holds the offset.
pub open spec fn descent(t: &SyntaxTree, n: usize, offset: TextSize) -> Seq<usize>
    decreases t.nodes@.len() - n,
{
    match first_holding(t, t.children_of(n), offset, 0) {
        Some(c) => if n < c < t.nodes@.len() {
            seq![n].add(descent(t, c, offset))
        } else {
            seq![n]
        },
        None => seq![n],
    }
}

/// The nodes at `offset`, from the root down; each is the parent of the next.
pub open spec fn spec_ancestors_at_offset(t: &SyntaxTree, offset: TextSize) -> Seq<usize> {
    descent(t, 0, offset)
}

impl SyntaxTree {
    /// The first child of `n` whose range holds `offset`, ends included.
    pub fn child_at_offset(&self, n: usize, offset: TextSize) -> (r: Option<usize>)
        requires
            self.wf(),
            n < self.nodes@.len(),
        ensures
            r == first_holding(self, self.children_of(n), offset, 0),
    {
        let cs = &self.nodes[n].children;
        let mut i: usize = 0;
        while i < cs.len()
            invariant
                self.wf(),
                n < self.nodes@.len(),
                cs@ == self.children_of(n),
                i <= cs@.len(),
                first_holding(self, cs@, offset, 0) == first_holding(self, cs@, offset, i as int),
            decreases cs@.len() - i,
        {
            let c = cs[i];
            assert(n < c < self.nodes@.len());
            if self.nodes[c].range.contains_inclusive(offset) {
                return Some(c);
            }
            i += 1;
        }
        None
    }

    /// The nodes at `offset`, from the root down to the deepest one.
    pub fn ancestors_at_offset(&self, offset: TextSize) -> (r: Vec<usize>)
        requires
            self.wf(),
        ensures
            r@ == spec_ancestors_at_offset(self, offset),
            r@.len() > 0,
            forall|j: int| 0 <= j < r@.len() ==> #[trigger] r@[j] < self.nodes@.len(),
    {
        let mut path: Vec<usize> = Vec::new();
        let mut cur: usize = 0;
        loop
            invariant
                self.wf(),
                cur < self.nodes@.len(),
                path@.add(descent(self, cur, offset)) == descent(self, 0, offset),
                forall|j: int| 0 <= j < path@.len() ==> #[trigger] path@[j] < self.nodes@.len(),
            decreases self.nodes@.len() - cur,
        {
            let next = self.child_at_offset(cur, offset);
            let ghost before = path@;
            path.push(cur);
            match next {
                Some(c) => {
                    proof {
                        lemma_first_holding_in(self, self.children_of(cur), offset, 0);
                        assert(before.add(descent(self, cur, offset)) =~= path@.add(
                            descent(self, c, offset),
                        ));
                    }
                    cur = c;
                },
                None => {
                    assert(path@ =~= before.add(descent(self, cur, offset)));
                    return path;
                },
            }
        }
    }
}

/// What `first_holding` finds is one of the sequence's elements.
pub proof fn lemma_first_holding_in(t: &SyntaxTree, cs: Seq<usize>, offset: TextSize, i: int)
    ensures
        first_holding(t, cs, offset, i) matches Some(c) ==> exists|j: int|
            0 <= j < cs.len() && cs[j] == c,
    decreases cs.len() - i,
{
    if 0 <= i < cs.len() && !t.range_of(cs[i]).spec_contains_inclusive(offset) {
        lemma_first_holding_in(t, cs, offset, i + 1);
    }
}

/// The chain from `n` starts at `n`, and each node in it is a child of the
/// one before.
pub proof fn lemma_descent_links(t: &SyntaxTree, n: usize, offset: TextSize)
    ensures
        descent(t, n, offset).len() > 0,
        descent(t, n, offset)[0] == n,
        forall|i: int|
            0 <= i < descent(t, n, offset).len() - 1 ==> t.children_of(
                #[trigger] descent(t, n, offset)[i],
            ).contains(descent(t, n, offset)[i + 1]),
    decreases t.nodes@.len() - n,
{
    let d = descent(t, n, offset);
    match first_holding(t, t.children_of(n), offset, 0) {
        Some(c) => {
            if n < c < t.nodes@.len() {
                lemma_descent_links(t, c, offset);
                lemma_first_holding_in(t, t.children_of(n), offset, 0);
                let rest = descent(t, c, offset);
                assert forall|i: int| 0 <= i < d.len() - 1 implies t.children_of(
                    #[trigger] d[i],
                ).contains(d[i + 1]) by {
                    if i > 0 {
                        assert(d[i] == rest[i - 1]);
                        assert(d[i + 1] == rest[i]);
                    } else {
                        assert(d[1] == rest[0]);
                    }
                }
            }
        },
        None => {},
    }
}

} // verus!
