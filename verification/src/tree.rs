//! The analyzer's view of a parsed syntax tree.
//!
//! A tree is a flat vector of nodes in pre-order: every child's index is
//! strictly greater than its parent's, and parent and child links agree
//! ([`tree_wf`]). Each node carries its raw kind string, its source text
//! and span, its named/error/missing flags, and the field name it occupies
//! in its parent, so the analysis reads plain values only.
//!
//! [`TreeBuilder`] grows a well-formed tree one node at a time; the parser
//! adapter and the tests both construct trees through it.

use vstd::prelude::*;

use crate::ast::{classify, is_function_type, is_loop_type, NodeType};
use crate::position::{Position, Range};

verus! {

/// One syntax node: its raw kind, source text and span, flags, the field
/// name it occupies in its parent, and its links.
#[derive(Debug, Clone)]
pub struct NodeData {
    pub kind: String,
    pub text: String,
    pub start: Position,
    pub end: Position,
    pub is_named: bool,
    pub is_error: bool,
    pub is_missing: bool,
    pub field: Option<String>,
    pub parent: Option<usize>,
    pub children: Vec<usize>,
}

/// Well-formedness of one node's links: its parent comes strictly before
/// it and lists it as a child, and each of its children comes strictly
/// after it, within bounds, and points back to it.
pub open spec fn wf_node(t: Seq<NodeData>, i: int) -> bool {
    &&& match t[i].parent {
        Some(p) => 0 <= (p as int) < i && t[p as int].children@.contains(i as usize),
        None => true,
    }
    &&& forall|c: int|
        0 <= c < t[i].children@.len() ==> {
            let ch = #[trigger] t[i].children@[c];
            &&& i < (ch as int) < t.len()
            &&& t[ch as int].parent == Some(i as usize)
        }
}

/// Well-formedness of a tree: nonempty, rooted at index 0, every node's
/// links in order. Child indices strictly exceed their parent's, so every
/// walk down the tree and every walk up the parent chain terminates.
pub open spec fn tree_wf(t: Seq<NodeData>) -> bool {
    &&& 0 < t.len()
    &&& t[0].parent is None
    &&& forall|i: int| 0 <= i < t.len() ==> #[trigger] wf_node(t, i)
}

/// The indices among `cs` whose nodes are named, in order.
pub open spec fn named_in(t: Seq<NodeData>, cs: Seq<usize>) -> Seq<usize>
    decreases cs.len(),
{
    if cs.len() == 0 {
        seq![]
    } else {
        named_in(t, cs.drop_last()) + if t[cs.last() as int].is_named {
            seq![cs.last()]
        } else {
            Seq::<usize>::empty()
        }
    }
}

/// The named children of node `i`, in order.
pub open spec fn named_children_of(t: Seq<NodeData>, i: int) -> Seq<usize> {
    named_in(t, t[i].children@)
}

/// Whether node `c` occupies field `name` in its parent.
pub open spec fn field_matches(t: Seq<NodeData>, c: usize, name: Seq<char>) -> bool {
    match t[c as int].field {
        Some(f) => f@ == name,
        None => false,
    }
}

/// The indices among `cs` whose nodes occupy field `name`, in order.
pub open spec fn field_in(t: Seq<NodeData>, cs: Seq<usize>, name: Seq<char>) -> Seq<usize>
    decreases cs.len(),
{
    if cs.len() == 0 {
        seq![]
    } else {
        field_in(t, cs.drop_last(), name) + if field_matches(t, cs.last(), name) {
            seq![cs.last()]
        } else {
            Seq::<usize>::empty()
        }
    }
}

/// The first child of node `i` occupying field `name`, if any.
pub open spec fn field_child(t: Seq<NodeData>, i: int, name: Seq<char>) -> Option<usize> {
    let f = field_in(t, t[i].children@, name);
    if f.len() == 0 {
        None
    } else {
        Some(f[0])
    }
}

/// Every index that [`named_in`] keeps comes from `cs`.
pub proof fn lemma_named_in_from(t: Seq<NodeData>, cs: Seq<usize>)
    ensures
        forall|k: int|
            0 <= k < named_in(t, cs).len() ==> cs.contains(#[trigger] named_in(t, cs)[k]),
    decreases cs.len(),
{
    if cs.len() > 0 {
        lemma_named_in_from(t, cs.drop_last());
        assert forall|k: int|
            0 <= k < named_in(t, cs).len() implies cs.contains(#[trigger] named_in(t, cs)[k]) by {
            if k < named_in(t, cs.drop_last()).len() {
                assert(cs.drop_last().contains(named_in(t, cs.drop_last())[k]));
                let j = choose|j: int|
                    0 <= j < cs.drop_last().len() && cs.drop_last()[j] == named_in(
                        t,
                        cs.drop_last(),
                    )[k];
                assert(cs[j] == named_in(t, cs)[k]);
            } else {
                assert(cs[cs.len() - 1] == named_in(t, cs)[k]);
            }
        }
    }
}

/// Every index that [`field_in`] keeps comes from `cs`.
pub proof fn lemma_field_in_from(t: Seq<NodeData>, cs: Seq<usize>, name: Seq<char>)
    ensures
        forall|k: int|
            0 <= k < field_in(t, cs, name).len() ==> cs.contains(
                #[trigger] field_in(t, cs, name)[k],
            ),
    decreases cs.len(),
{
    if cs.len() > 0 {
        lemma_field_in_from(t, cs.drop_last(), name);
        assert forall|k: int|
            0 <= k < field_in(t, cs, name).len() implies cs.contains(
            #[trigger] field_in(t, cs, name)[k],
        ) by {
            if k < field_in(t, cs.drop_last(), name).len() {
                assert(cs.drop_last().contains(field_in(t, cs.drop_last(), name)[k]));
                let j = choose|j: int|
                    0 <= j < cs.drop_last().len() && cs.drop_last()[j] == field_in(
                        t,
                        cs.drop_last(),
                        name,
                    )[k];
                assert(cs[j] == field_in(t, cs, name)[k]);
            } else {
                assert(cs[cs.len() - 1] == field_in(t, cs, name)[k]);
            }
        }
    }
}

/// Under [`tree_wf`], every child index of node `i` is within bounds and
/// strictly greater than `i`.
pub proof fn lemma_children_in_range(t: Seq<NodeData>, i: int)
    requires
        tree_wf(t),
        0 <= i < t.len(),
    ensures
        forall|c: int|
            0 <= c < t[i].children@.len() ==> i < ((#[trigger] t[i].children@[c]) as int)
                < t.len(),
{
    assert(wf_node(t, i));
}

/// The position of `x` in `cs`: the first index holding it, or -1.
pub open spec fn position_of(cs: Seq<usize>, x: usize) -> int
    decreases cs.len(),
{
    if cs.len() == 0 {
        -1
    } else if cs[0] == x {
        0
    } else {
        let rest = position_of(cs.drop_first(), x);
        if rest < 0 {
            -1
        } else {
            rest + 1
        }
    }
}

/// `position_of` returns exactly the first index holding `x`, and -1 only
/// when `x` does not occur.
pub proof fn lemma_position_of(cs: Seq<usize>, x: usize)
    ensures
        position_of(cs, x) < 0 ==> forall|j: int| 0 <= j < cs.len() ==> cs[j] != x,
        position_of(cs, x) >= 0 ==> position_of(cs, x) < cs.len() && cs[position_of(cs, x)] == x
            && forall|j: int| 0 <= j < position_of(cs, x) ==> cs[j] != x,
    decreases cs.len(),
{
    if cs.len() > 0 && cs[0] != x {
        lemma_position_of(cs.drop_first(), x);
        assert forall|j: int| 1 <= j < cs.len() implies cs.drop_first()[j - 1] == cs[j] by {}
    }
}

/// The named siblings that follow node `i`, in source order: the part of
/// its parent's child list after `i`, kept to named nodes.
pub open spec fn following_named_of(t: Seq<NodeData>, i: int) -> Seq<usize> {
    match t[i].parent {
        None => seq![],
        Some(p) => {
            let cs = t[p as int].children@;
            let pos = position_of(cs, i as usize);
            if pos < 0 {
                seq![]
            } else {
                named_in(t, cs.skip(pos + 1))
            }
        },
    }
}

/// Whether some strict ancestor of node `i` is a loop statement.
pub open spec fn in_loop(t: Seq<NodeData>, i: int) -> bool
    decreases i,
{
    match t[i].parent {
        None => false,
        Some(p) => if 0 <= (p as int) < i {
            is_loop_type(classify(t[p as int].kind@)) || in_loop(t, p as int)
        } else {
            false
        },
    }
}

/// Whether some strict ancestor of node `i` is a function declaration or a
/// lambda.
pub open spec fn in_function(t: Seq<NodeData>, i: int) -> bool
    decreases i,
{
    match t[i].parent {
        None => false,
        Some(p) => if 0 <= (p as int) < i {
            is_function_type(classify(t[p as int].kind@)) || in_function(t, p as int)
        } else {
            false
        },
    }
}

/// A parsed syntax tree, flat and pre-ordered; index 0 is the root.
#[derive(Debug, Clone)]
pub struct SyntaxTree {
    pub nodes: Vec<NodeData>,
}

impl View for SyntaxTree {
    type V = Seq<NodeData>;

    open spec fn view(&self) -> Seq<NodeData> {
        self.nodes@
    }
}

impl SyntaxTree {
    /// The number of nodes.
    pub fn len(&self) -> (r: usize)
        ensures
            r == self@.len(),
    {
        self.nodes.len()
    }

    /// The named children of node `i`, in order.
    pub fn named_children(&self, i: usize) -> (r: Vec<usize>)
        requires
            tree_wf(self@),
            i < self@.len(),
        ensures
            r@ == named_children_of(self@, i as int),
    {
        let ghost t = self@;
        let ghost cs = self@[i as int].children@;
        let mut r: Vec<usize> = Vec::new();
        let n = self.nodes[i].children.len();
        let mut j: usize = 0;
        while j < n
            invariant
                tree_wf(t),
                t == self@,
                i < t.len(),
                cs == t[i as int].children@,
                n == cs.len(),
                j <= n,
                r@ == named_in(t, cs.take(j as int)),
            decreases n - j,
        {
            proof {
                assert(cs.take(j + 1).drop_last() =~= cs.take(j as int));
                assert(cs.take(j + 1).last() == cs[j as int]);
                lemma_children_in_range(t, i as int);
            }
            let c = self.nodes[i].children[j];
            if self.nodes[c].is_named {
                r.push(c);
                proof {
                    assert(r@ =~= named_in(t, cs.take(j as int)) + seq![c]);
                }
            } else {
                proof {
                    assert(named_in(t, cs.take(j as int)) + Seq::<usize>::empty() =~= named_in(
                        t,
                        cs.take(j as int),
                    ));
                }
            }
            j += 1;
        }
        proof {
            assert(cs.take(n as int) =~= cs);
        }
        r
    }

    /// The first child of node `i` occupying field `name`, if any.
    pub fn child_by_field(&self, i: usize, name: &str) -> (r: Option<usize>)
        requires
            tree_wf(self@),
            i < self@.len(),
        ensures
            r == field_child(self@, i as int, name@),
            r matches Some(c) ==> i < c < self@.len(),
    {
        let ghost t = self@;
        let ghost cs = self@[i as int].children@;
        let n = self.nodes[i].children.len();
        let mut j: usize = 0;
        while j < n
            invariant
                tree_wf(t),
                t == self@,
                i < t.len(),
                cs == t[i as int].children@,
                n == cs.len(),
                j <= n,
                field_in(t, cs.take(j as int), name@).len() == 0,
            decreases n - j,
        {
            proof {
                assert(cs.take(j + 1).drop_last() =~= cs.take(j as int));
                assert(cs.take(j + 1).last() == cs[j as int]);
                lemma_children_in_range(t, i as int);
            }
            let c = self.nodes[i].children[j];
            let matched = match &self.nodes[c].field {
                Some(f) => *f == name.to_owned(),
                None => false,
            };
            if matched {
                proof {
                    assert(field_matches(t, c, name@));
                    assert(field_in(t, cs.take(j + 1), name@) =~= seq![c]);
                    assert(cs.take(j + 1) + cs.skip(j + 1) =~= cs);
                    lemma_field_in_split(t, cs.take(j + 1), cs.skip(j + 1), name@);
                    assert(field_in(t, cs, name@)[0] == c);
                }
                return Some(c);
            }
            proof {
                if field_matches(t, cs[j as int], name@) {
                    assert(false);
                }
                assert(field_in(t, cs.take(j + 1), name@) =~= field_in(
                    t,
                    cs.take(j as int),
                    name@,
                ));
            }
            j += 1;
        }
        proof {
            assert(cs.take(n as int) =~= cs);
        }
        None
    }

    /// The named siblings following node `i`, in source order.
    pub fn following_named_siblings(&self, i: usize) -> (r: Vec<usize>)
        requires
            tree_wf(self@),
            i < self@.len(),
        ensures
            r@ == following_named_of(self@, i as int),
    {
        let ghost t = self@;
        match self.nodes[i].parent {
            None => Vec::new(),
            Some(p) => {
                proof {
                    assert(wf_node(t, i as int));
                }
                let ghost cs = self@[p as int].children@;
                let n = self.nodes[p].children.len();
                let mut k: usize = 0;
                let mut pos: Option<usize> = None;
                while k < n
                    invariant
                        tree_wf(t),
                        t == self@,
                        i < t.len(),
                        (p as int) < i as int,
                        cs == t[p as int].children@,
                        n == cs.len(),
                        k <= n,
                        match pos {
                            None => forall|l: int| 0 <= l < k ==> cs[l] != i,
                            Some(pk) => pk < k && cs[pk as int] == i && forall|l: int|
                                0 <= l < pk ==> cs[l] != i,
                        },
                    decreases n - k,
                {
                    if pos.is_none() && self.nodes[p].children[k] == i {
                        pos = Some(k);
                    }
                    k += 1;
                }
                match pos {
                    None => {
                        proof {
                            lemma_position_of(cs, i);
                        }
                        Vec::new()
                    },
                    Some(pk) => {
                        proof {
                            lemma_position_of(cs, i);
                            assert(position_of(cs, i) == pk as int);
                        }
                        let ghost rest = cs.skip(pk + 1);
                        let mut r: Vec<usize> = Vec::new();
                        let mut j: usize = pk + 1;
                        while j < n
                            invariant
                                tree_wf(t),
                                t == self@,
                                i < t.len(),
                                (p as int) < i as int,
                                cs == t[p as int].children@,
                                n == cs.len(),
                                rest == cs.skip(pk + 1),
                                pk < n,
                                position_of(cs, i) == pk as int,
                                pk + 1 <= j <= n,
                                r@ == named_in(t, cs.subrange(pk + 1, j as int)),
                            decreases n - j,
                        {
                            proof {
                                assert(cs.subrange(pk + 1, j + 1).drop_last() =~= cs.subrange(
                                    pk + 1,
                                    j as int,
                                ));
                                assert(cs.subrange(pk + 1, j + 1).last() == cs[j as int]);
                                lemma_children_in_range(t, p as int);
                            }
                            let c = self.nodes[p].children[j];
                            if self.nodes[c].is_named {
                                r.push(c);
                                proof {
                                    assert(r@ =~= named_in(t, cs.subrange(pk + 1, j as int))
                                        + seq![c]);
                                }
                            } else {
                                proof {
                                    assert(named_in(t, cs.subrange(pk + 1, j as int))
                                        + Seq::<usize>::empty() =~= named_in(
                                        t,
                                        cs.subrange(pk + 1, j as int),
                                    ));
                                }
                            }
                            j += 1;
                        }
                        proof {
                            assert(cs.subrange(pk + 1, n as int) =~= cs.skip(pk + 1));
                            assert(position_of(cs, i) == pk as int);
                        }
                        r
                    },
                }
            },
        }
    }

    /// Whether some strict ancestor of node `i` is a loop statement.
    pub fn has_loop_ancestor(&self, i: usize) -> (r: bool)
        requires
            tree_wf(self@),
            i < self@.len(),
        ensures
            r == in_loop(self@, i as int),
        decreases i,
    {
        match self.nodes[i].parent {
            None => false,
            Some(p) => {
                proof {
                    assert(wf_node(self@, i as int));
                }
                let t = NodeType::from_kind(&self.nodes[p].kind);
                if t.is_loop() {
                    true
                } else {
                    self.has_loop_ancestor(p)
                }
            },
        }
    }

    /// Whether some strict ancestor of node `i` is a function declaration
    /// or a lambda.
    pub fn has_function_ancestor(&self, i: usize) -> (r: bool)
        requires
            tree_wf(self@),
            i < self@.len(),
        ensures
            r == in_function(self@, i as int),
        decreases i,
    {
        match self.nodes[i].parent {
            None => false,
            Some(p) => {
                proof {
                    assert(wf_node(self@, i as int));
                }
                let t = NodeType::from_kind(&self.nodes[p].kind);
                if t.is_function_like() {
                    true
                } else {
                    self.has_function_ancestor(p)
                }
            },
        }
    }
}

/// The source range of node `i`.
pub open spec fn node_range(t: Seq<NodeData>, i: int) -> Range {
    Range { start: t[i].start, end: t[i].end }
}

/// Reads the source range of node `i`.
pub fn get_node_range(tree: &SyntaxTree, i: usize) -> (r: Range)
    requires
        i < tree@.len(),
    ensures
        r == node_range(tree@, i as int),
{
    Range { start: tree.nodes[i].start, end: tree.nodes[i].end }
}

/// Under [`tree_wf`], every named child of node `i` lies strictly between
/// `i` and the tree's length.
pub proof fn lemma_named_children_in_range(t: Seq<NodeData>, i: int)
    requires
        tree_wf(t),
        0 <= i < t.len(),
    ensures
        forall|k: int|
            0 <= k < named_children_of(t, i).len() ==> i < ((
            #[trigger] named_children_of(t, i)[k]) as int) < t.len(),
{
    lemma_named_in_from(t, t[i].children@);
    assert forall|k: int|
        0 <= k < named_children_of(t, i).len() implies i < ((
    #[trigger] named_children_of(t, i)[k]) as int) < t.len() by {
        let cs = t[i].children@;
        assert(cs.contains(named_children_of(t, i)[k]));
        let w = choose|w: int| 0 <= w < cs.len() && cs[w] == named_children_of(t, i)[k];
        assert(wf_node(t, i));
    }
}

/// Under [`tree_wf`], every following named sibling of node `i` is within
/// bounds.
pub proof fn lemma_following_in_range(t: Seq<NodeData>, i: int)
    requires
        tree_wf(t),
        0 <= i < t.len(),
    ensures
        forall|k: int|
            0 <= k < following_named_of(t, i).len() ==> 0 <= ((
            #[trigger] following_named_of(t, i)[k]) as int) < t.len(),
{
    match t[i].parent {
        None => {},
        Some(p) => {
            assert(wf_node(t, i));
            let cs = t[p as int].children@;
            let pos = position_of(cs, i as usize);
            if pos >= 0 {
                lemma_position_of(cs, i as usize);
                lemma_named_in_from(t, cs.skip(pos + 1));
                assert forall|k: int|
                    0 <= k < following_named_of(t, i).len() implies 0 <= ((
                #[trigger] following_named_of(t, i)[k]) as int) < t.len() by {
                    assert(cs.skip(pos + 1).contains(following_named_of(t, i)[k]));
                    let w = choose|w: int|
                        0 <= w < cs.skip(pos + 1).len() && #[trigger] cs.skip(pos + 1)[w]
                            == following_named_of(t, i)[k];
                    assert(cs[pos + 1 + w] == following_named_of(t, i)[k]);
                    assert(wf_node(t, p as int));
                }
            }
        },
    }
}

/// Whether two nodes agree on everything but their links: kind, text,
/// span, flags, and field.
pub open spec fn node_content_matches(a: NodeData, b: NodeData) -> bool {
    &&& a.kind == b.kind
    &&& a.text == b.text
    &&& a.start == b.start
    &&& a.end == b.end
    &&& a.is_named == b.is_named
    &&& a.is_error == b.is_error
    &&& a.is_missing == b.is_missing
    &&& a.field == b.field
}

/// Grows a well-formed syntax tree one node at a time: links are set by
/// the builder, so every tree it builds satisfies [`tree_wf`].
#[derive(Debug, Clone)]
pub struct TreeBuilder {
    nodes: Vec<NodeData>,
}

impl View for TreeBuilder {
    type V = Seq<NodeData>;

    closed spec fn view(&self) -> Seq<NodeData> {
        self.nodes@
    }
}

impl TreeBuilder {
    /// Starts a tree from its root node; the root's links are cleared.
    pub fn new(root: NodeData) -> (r: TreeBuilder)
        ensures
            tree_wf(r@),
            r@.len() == 1,
            node_content_matches(r@[0], root),
            r@[0].parent is None,
            r@[0].children@ == Seq::<usize>::empty(),
    {
        let sanitized = NodeData { parent: None, children: Vec::new(), ..root };
        let mut nodes: Vec<NodeData> = Vec::new();
        nodes.push(sanitized);
        let r = TreeBuilder { nodes };
        proof {
            assert(wf_node(r@, 0));
        }
        r
    }

    /// The number of nodes so far.
    pub fn len(&self) -> (r: usize)
        ensures
            r == self@.len(),
    {
        self.nodes.len()
    }

    /// Appends `node` as the last child of `parent` and returns its index.
    /// The new node's links are set by the builder; every other node keeps
    /// its content, and only the parent's child list grows.
    pub fn add_child(&mut self, parent: usize, node: NodeData) -> (idx: usize)
        requires
            tree_wf(old(self)@),
            parent < old(self)@.len(),
            old(self)@.len() < usize::MAX,
        ensures
            tree_wf(final(self)@),
            idx == old(self)@.len(),
            final(self)@.len() == old(self)@.len() + 1,
            node_content_matches(final(self)@[idx as int], node),
            final(self)@[idx as int].parent == Some(parent),
            final(self)@[idx as int].children@ == Seq::<usize>::empty(),
            forall|j: int|
                0 <= j < old(self)@.len() && j != parent ==> final(self)@[j] == old(self)@[j],
            node_content_matches(final(self)@[parent as int], old(self)@[parent as int]),
            final(self)@[parent as int].parent == old(self)@[parent as int].parent,
            final(self)@[parent as int].children@ == old(self)@[parent as int].children@.push(
                idx,
            ),
    {
        let ghost t0 = self@;
        let idx = self.nodes.len();
        let sanitized = NodeData { parent: Some(parent), children: Vec::new(), ..node };
        let mut pnode = self.nodes.remove(parent);
        pnode.children.push(idx);
        let ghost pv = pnode;
        self.nodes.insert(parent, pnode);
        proof {
            assert(self@ =~= t0.update(parent as int, pv));
        }
        self.nodes.push(sanitized);
        let ghost t = self@;
        proof {
            assert(t =~= t0.update(parent as int, pv).push(sanitized));
            assert forall|j: int| 0 <= j < t.len() implies wf_node(t, j) by {
                if j == idx as int {
                    assert(t[j].parent == Some(parent));
                    assert(t[parent as int].children@.last() == idx);
                    assert(t[parent as int].children@.contains(idx));
                } else {
                    assert(wf_node(t0, j));
                    match t[j].parent {
                        Some(p) => {
                            assert(t0[j].parent == Some(p));
                            assert(t0[p as int].children@.contains(j as usize));
                            let w = choose|w: int|
                                0 <= w < t0[p as int].children@.len() && t0[p as int].children@[w]
                                    == j as usize;
                            assert(t[p as int].children@[w] == j as usize);
                            assert(t[p as int].children@.contains(j as usize));
                        },
                        None => {},
                    }
                    assert forall|c: int| 0 <= c < t[j].children@.len() implies {
                        let ch = #[trigger] t[j].children@[c];
                        &&& j < (ch as int) < t.len()
                        &&& t[ch as int].parent == Some(j as usize)
                    } by {
                        if j == parent as int && c == t[j].children@.len() - 1 {
                            assert(t[j].children@[c] == idx);
                        } else {
                            assert(t0[j].children@[c] == t[j].children@[c]);
                            let ch = t[j].children@[c];
                            assert(j < (ch as int) < t0.len());
                            assert(t0[ch as int].parent == Some(j as usize));
                            assert(t[ch as int].parent == t0[ch as int].parent);
                        }
                    }
                }
            }
        }
        idx
    }

    /// Finishes the tree.
    pub fn build(self) -> (r: SyntaxTree)
        ensures
            r@ == self@,
    {
        SyntaxTree { nodes: self.nodes }
    }
}

/// `field_in` distributes over concatenation of child lists.
pub proof fn lemma_field_in_split(t: Seq<NodeData>, a: Seq<usize>, b: Seq<usize>, name: Seq<char>)
    ensures
        field_in(t, a + b, name) == field_in(t, a, name) + field_in(t, b, name),
    decreases b.len(),
{
    if b.len() == 0 {
        assert(a + b =~= a);
        assert(field_in(t, a, name) + field_in(t, b, name) =~= field_in(t, a, name));
    } else {
        lemma_field_in_split(t, a, b.drop_last(), name);
        assert((a + b).drop_last() =~= a + b.drop_last());
        assert((a + b).last() == b.last());
        if field_matches(t, b.last(), name) {
            assert(field_in(t, a + b, name) =~= field_in(t, a, name) + field_in(
                t,
                b,
                name,
            ));
        } else {
            assert(field_in(t, a + b, name) =~= field_in(t, a, name) + field_in(
                t,
                b,
                name,
            ));
        }
    }
}

} // verus!
