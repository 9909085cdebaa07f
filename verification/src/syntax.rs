//! The syntax tree of a document, as plain values.

use vstd::prelude::*;
use vstd::string::*;

use crate::provider;
use crate::text;

verus! {

/// A node of a syntax tree: what it is, the bytes that it spans, the node that it belongs to and the
/// field that it fills there, and whether the grammar names it.
#[derive(Debug, PartialEq, Eq)]
pub struct SyntaxNode {
    pub kind: String,
    pub start: usize,
    pub end: usize,
    pub parent: Option<usize>,
    pub field: Option<String>,
    pub named: bool,
}

/// What a node holds.
#[verifier::ext_equal]
pub struct SyntaxNodeView {
    pub kind: Seq<char>,
    pub start: usize,
    pub end: usize,
    pub parent: Option<usize>,
    pub field: Option<Seq<char>>,
    pub named: bool,
}

impl View for SyntaxNode {
    type V = SyntaxNodeView;

    open spec fn view(&self) -> SyntaxNodeView {
        SyntaxNodeView {
            kind: self.kind@,
            start: self.start,
            end: self.end,
            parent: self.parent,
            field: provider::optional_text(self.field),
            named: self.named,
        }
    }
}

/// A syntax tree: its nodes, each before those that belong to it, and those in the order in which
/// they stand in the text.
#[derive(Debug, PartialEq, Eq)]
pub struct SyntaxTree {
    pub nodes: Vec<SyntaxNode>,
}

impl View for SyntaxTree {
    type V = Seq<SyntaxNodeView>;

    open spec fn view(&self) -> Seq<SyntaxNodeView> {
        self.nodes@.map_values(|n: SyntaxNode| n@)
    }
}

impl Clone for SyntaxNode {
    fn clone(&self) -> (r: Self)
        ensures
            r@ == self@,
    {
        SyntaxNode {
            kind: self.kind.clone(),
            start: self.start,
            end: self.end,
            parent: self.parent,
            field: provider::clone_optional(&self.field),
            named: self.named,
        }
    }
}

impl Clone for SyntaxTree {
    fn clone(&self) -> (r: Self)
        ensures
            r@ == self@,
    {
        let mut nodes: Vec<SyntaxNode> = Vec::new();
        let mut i: usize = 0;
        while i < self.nodes.len()
            invariant
                i <= self.nodes@.len(),
                nodes@.len() == i,
                forall|k: int| 0 <= k < i ==> (#[trigger] nodes@[k])@ == self.nodes@[k]@,
            decreases self.nodes@.len() - i,
        {
            nodes.push(self.nodes[i].clone());
            i += 1;
        }
        let tree = SyntaxTree { nodes };
        assert(tree@ =~= self@);
        tree
    }
}

/// What an optional tree holds.
pub open spec fn tree_view(tree: Option<SyntaxTree>) -> Option<Seq<SyntaxNodeView>> {
    match tree {
        Some(tree) => Some(tree@),
        None => None,
    }
}

/// Copies an optional tree.
pub fn clone_tree(tree: &Option<SyntaxTree>) -> (r: Option<SyntaxTree>)
    ensures
        tree_view(r) == tree_view(*tree),
{
    match tree {
        Some(tree) => Some(tree.clone()),
        None => None,
    }
}

/// Whether each node stands before those that belong to it, and spans them.
pub open spec fn nested(nodes: Seq<SyntaxNodeView>) -> bool {
    forall|i: int|
        0 <= i < nodes.len() && (#[trigger] nodes[i]).parent is Some ==> {
            let parent = nodes[i].parent->0 as int;
            parent < i && nodes[parent].start <= nodes[i].start && nodes[i].end
                <= nodes[parent].end
        }
}

/// Whether every node of a tree spans whole characters of a text.
pub open spec fn fits(nodes: Seq<SyntaxNodeView>, source: Seq<char>) -> bool {
    forall|i: int|
        0 <= i < nodes.len() ==> {
            &&& (#[trigger] nodes[i]).start <= nodes[i].end
            &&& text::char_boundary(source, nodes[i].start as nat)
            &&& text::char_boundary(source, nodes[i].end as nat)
        }
}

/// Whether the nodes stand in the order in which they begin, as those of a parsed text do.
pub open spec fn in_order(nodes: Seq<SyntaxNodeView>) -> bool {
    forall|i: int, j: int|
        0 <= i <= j < nodes.len() ==> (#[trigger] nodes[i]).start <= (#[trigger] nodes[j]).start
}

/// Whether a node spans a range of bytes.
pub open spec fn spans(node: SyntaxNodeView, from: int, to: int) -> bool {
    node.start <= from && to <= node.end
}

/// The last of the first `n` nodes that spans a range of bytes.
pub open spec fn last_spanning(nodes: Seq<SyntaxNodeView>, from: int, to: int, n: int) -> Option<int>
    decreases n,
{
    if n <= 0 || n > nodes.len() {
        None
    } else if spans(nodes[n - 1], from, to) {
        Some(n - 1)
    } else {
        last_spanning(nodes, from, to, n - 1)
    }
}

/// The innermost node that spans a range of bytes; the root where none does.
pub open spec fn node_at(nodes: Seq<SyntaxNodeView>, from: int, to: int) -> Option<int> {
    match last_spanning(nodes, from, to, nodes.len() as int) {
        Some(i) => Some(i),
        None => if nodes.len() > 0 {
            Some(0)
        } else {
            None
        },
    }
}

/// The first child of a node, from an index on, that fills a field.
pub open spec fn field_child(
    nodes: Seq<SyntaxNodeView>,
    parent: int,
    field: Seq<char>,
    from: int,
) -> Option<int>
    decreases nodes.len() - from,
{
    if from >= nodes.len() {
        None
    } else if child_of(nodes[from], parent) && nodes[from].field == Some(field) {
        Some(from)
    } else {
        field_child(nodes, parent, field, from + 1)
    }
}

/// Whether a node belongs to another.
pub open spec fn child_of(node: SyntaxNodeView, parent: int) -> bool {
    node.parent is Some && node.parent->0 == parent
}

/// The named children of a node among the first `n` nodes.
pub open spec fn named_children(nodes: Seq<SyntaxNodeView>, parent: int, n: int) -> Seq<int>
    decreases n,
{
    if n <= 0 || n > nodes.len() {
        Seq::empty()
    } else {
        let before = named_children(nodes, parent, n - 1);
        if child_of(nodes[n - 1], parent) && nodes[n - 1].named {
            before.push(n - 1)
        } else {
            before
        }
    }
}

/// The text that a node spans.
pub open spec fn node_text(source: Seq<char>, node: SyntaxNodeView) -> Seq<char> {
    source.subrange(
        text::fitting(source, node.start as int) as int,
        text::fitting(source, node.end as int) as int,
    )
}

impl SyntaxTree {
    /// The innermost node that spans a range of bytes; the root where none does.
    pub fn node_at(&self, from: usize, to: usize) -> (r: Option<usize>)
        ensures
            match r {
                Some(i) => i < self@.len() && node_at(self@, from as int, to as int) == Some(
                    i as int,
                ),
                None => node_at(self@, from as int, to as int) is None,
            },
    {
        let ghost all = self@;
        let mut n: usize = self.nodes.len();
        while n > 0
            invariant
                n <= self.nodes@.len(),
                all == self@,
                last_spanning(all, from as int, to as int, all.len() as int) == last_spanning(
                    all,
                    from as int,
                    to as int,
                    n as int,
                ),
            decreases n,
        {
            assert(all[n - 1] == self.nodes@[n - 1]@);
            if self.nodes[n - 1].start <= from && to <= self.nodes[n - 1].end {
                return Some(n - 1);
            }
            n -= 1;
        }
        if self.nodes.len() > 0 {
            Some(0)
        } else {
            None
        }
    }

    /// The first child of a node that fills a field.
    pub fn child_by_field_name(&self, parent: usize, field: &str) -> (r: Option<usize>)
        ensures
            match r {
                Some(i) => i < self@.len() && field_child(self@, parent as int, field@, 0) == Some(
                    i as int,
                ),
                None => field_child(self@, parent as int, field@, 0) is None,
            },
    {
        let ghost all = self@;
        let mut i: usize = 0;
        while i < self.nodes.len()
            invariant
                i <= self.nodes@.len(),
                all == self@,
                field_child(all, parent as int, field@, 0) == field_child(
                    all,
                    parent as int,
                    field@,
                    i as int,
                ),
            decreases self.nodes@.len() - i,
        {
            let node = &self.nodes[i];
            assert(all[i as int] == node@);
            let belongs = match node.parent {
                Some(p) => p == parent,
                None => false,
            };
            let fills = match &node.field {
                Some(name) => text::eq(name, field),
                None => false,
            };
            if belongs && fills {
                return Some(i);
            }
            i += 1;
        }
        None
    }

    /// The named children of a node.
    pub fn named_children(&self, parent: usize) -> (r: Vec<usize>)
        ensures
            text::numbers(r@) == named_children(self@, parent as int, self@.len() as int),
            forall|k: int| 0 <= k < r@.len() ==> #[trigger] r@[k] < self@.len(),
    {
        let ghost all = self@;
        let mut out: Vec<usize> = Vec::new();
        let mut i: usize = 0;
        assert(text::numbers(out@) =~= Seq::<int>::empty());
        while i < self.nodes.len()
            invariant
                i <= self.nodes@.len(),
                all == self@,
                text::numbers(out@) == named_children(all, parent as int, i as int),
                forall|k: int| 0 <= k < out@.len() ==> #[trigger] out@[k] < i,
            decreases self.nodes@.len() - i,
        {
            let node = &self.nodes[i];
            assert(all[i as int] == node@);
            let belongs = match node.parent {
                Some(p) => p == parent,
                None => false,
            };
            if belongs && node.named {
                let ghost held = text::numbers(out@);
                out.push(i);
                assert(text::numbers(out@) =~= held.push(i as int));
            }
            i += 1;
        }
        out
    }

    /// The text that a node spans.
    pub fn text_of(&self, source: &str, node: usize) -> (r: String)
        requires
            node < self@.len(),
            fits(self@, source@),
        ensures
            r@ == node_text(source@, self@[node as int]),
    {
        let chars = text::chars_of(source);
        assert(self@[node as int] == self.nodes@[node as int]@);
        let (from, _) = text::fit(&chars, self.nodes[node].start);
        let (to, _) = text::fit(&chars, self.nodes[node].end);
        proof {
            text::lemma_fitting(source@, self@[node as int].start as int);
            text::lemma_fitting(source@, self@[node as int].end as int);
        }
        text::string_of(&chars, from, to)
    }
}

proof fn lemma_last_spanning(nodes: Seq<SyntaxNodeView>, from: int, to: int, n: int)
    requires
        n <= nodes.len(),
    ensures
        match last_spanning(nodes, from, to, n) {
            Some(i) => 0 <= i < n && spans(nodes[i], from, to) && forall|j: int|
                i < j < n ==> !spans(#[trigger] nodes[j], from, to),
            None => forall|j: int| 0 <= j < n ==> !spans(#[trigger] nodes[j], from, to),
        },
    decreases n,
{
    if n > 0 && !spans(nodes[n - 1], from, to) {
        lemma_last_spanning(nodes, from, to, n - 1);
    }
}

/// No child of the node that is found spans the range of bytes too.
pub proof fn law_found_nodes_are_innermost(
    nodes: Seq<SyntaxNodeView>,
    from: int,
    to: int,
    child: int,
)
    requires
        nested(nodes),
        0 <= child < nodes.len(),
        node_at(nodes, from, to) is Some,
        child_of(nodes[child], node_at(nodes, from, to)->0),
    ensures
        !spans(nodes[child], from, to),
{
    lemma_last_spanning(nodes, from, to, nodes.len() as int);
}

} // verus!
