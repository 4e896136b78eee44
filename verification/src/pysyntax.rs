//! Python source as a syntax tree the compiler reads: tree-sitter parses
//! it with the Python grammar, and the tree is copied into plain nodes
//! (kind, text, field name, children) that the DAG extraction walks.

use vstd::prelude::*;
use vstd::string::StrSliceExecFns;

verus! {

#[verifier::external_type_specification]
#[verifier::external_body]
pub struct ExTsParser(tree_sitter::Parser);

#[verifier::external_type_specification]
#[verifier::external_body]
pub struct ExTsTree(tree_sitter::Tree);

/// A node of a tree-sitter tree in plain values: its kind, the field it
/// fills in its parent, its byte range in the source, and the position of
/// its parent. Nodes are numbered in document order, the root first (the
/// descendant index that `TreeCursor::goto_descendant` takes).
pub type TsNode = (Seq<char>, Option<Seq<char>>, usize, usize, Option<usize>);

/// The nodes a tree holds, in document order.
pub uninterp spec fn tree_nodes(tree: tree_sitter::Tree) -> Seq<TsNode>;

/// The nodes of the tree that tree-sitter, with the grammar of
/// `tree_sitter_python`, parses the text into.
pub uninterp spec fn python_tree(source: Seq<char>) -> Seq<TsNode>;

/// The text that the bytes `start..end` of the UTF-8 encoding of `source`
/// spell, as `Node::utf8_text` reads it; empty when they are not UTF-8.
pub uninterp spec fn utf8_slice(source: Seq<char>, start: usize, end: usize) -> Seq<char>;

/// `tree_sitter::Parser::new` followed by `set_language` with the Python
/// grammar of `tree_sitter_python`. The grammar's ABI version (15) lies in
/// the range this tree-sitter accepts (13 to 15) and the grammar is native,
/// so `set_language` accepts it: the result is `Ok`.
#[verifier::external_body]
pub(crate) fn python_parser() -> (p: Result<tree_sitter::Parser, String>)
    ensures
        p is Ok,
{
    let mut parser = tree_sitter::Parser::new();
    match parser.set_language(&tree_sitter_python::LANGUAGE.into()) {
        Ok(()) => Ok(parser),
        Err(e) => Err(format!("{}", e)),
    }
}

/// `Parser::parse` of the whole text with the Python grammar, on a parser
/// brought back to its first state beforehand: `Parser::reset` drops any
/// parse that was left halted, `Parser::set_included_ranges` with no range
/// makes the parser read the entire document (an empty list is always
/// accepted), and `Parser::set_language` sets the grammar of
/// `tree_sitter_python`. A logger or a dot-graph output that the caller
/// installed writes text only and leaves the tree as it is. So the tree is
/// the one the text parses into under that grammar. With a language set,
/// no progress callback and no old tree, `parse` gives a tree (it gives
/// `None` only without a language, on a cancelled parse, or for a
/// WebAssembly grammar).
#[verifier::external_body]
fn parse_text(parser: &mut tree_sitter::Parser, source: &str) -> (t: Option<tree_sitter::Tree>)
    ensures
        t is Some,
        tree_nodes(t->0) == python_tree(source@),
{
    parser.reset();
    match (parser.set_included_ranges(&[]), parser.set_language(&tree_sitter_python::LANGUAGE.into())) {
        (Ok(()), Ok(())) => parser.parse(source, None),
        _ => None,
    }
}

/// `Node::descendant_count` of the root: how many nodes the tree holds.
#[verifier::external_body]
fn node_count(tree: &tree_sitter::Tree) -> (n: usize)
    ensures
        n == tree_nodes(*tree).len(),
{
    tree.root_node().descendant_count()
}

/// Node `i` of the tree (through `TreeCursor::goto_descendant`): its
/// kind, its text in the source the tree was parsed from
/// (`Node::utf8_text`, empty when not UTF-8), the field it fills in its
/// parent (`TreeCursor::field_name`), and its parent's position
/// (`goto_parent`, then `descendant_index`).
#[verifier::external_body]
fn node_at(tree: &tree_sitter::Tree, source: &str, i: usize) -> (r: (String, String, Option<String>, Option<usize>))
    requires
        i < tree_nodes(*tree).len(),
        tree_nodes(*tree) == python_tree(source@),
    ensures
        r.0@ == tree_nodes(*tree)[i as int].0,
        r.1@ == utf8_slice(source@, tree_nodes(*tree)[i as int].2, tree_nodes(*tree)[i as int].3),
        match r.2 {
            Some(f) => tree_nodes(*tree)[i as int].1 == Some(f@),
            None => tree_nodes(*tree)[i as int].1 is None,
        },
        r.3 == tree_nodes(*tree)[i as int].4,
{
    let mut c = tree.walk();
    c.goto_descendant(i);
    let node = c.node();
    let field = c.field_name().map(|f| f.to_string());
    let parent = if c.goto_parent() { Some(c.descendant_index()) } else { None };
    (node.kind().to_string(), node.utf8_text(source.as_bytes()).unwrap_or("").to_string(), field, parent)
}

/// One node of a syntax tree: its kind, its source text, the field it
/// fills in its parent, and its children (by position in the tree), in
/// order.
#[derive(Debug, Clone)]
pub struct PyNode {
    pub kind: String,
    pub text: String,
    pub field: Option<String>,
    pub children: Vec<usize>,
}

/// A node over plain values.
pub struct PyNodeView {
    pub kind: Seq<char>,
    pub text: Seq<char>,
    pub field: Option<Seq<char>>,
    pub children: Seq<usize>,
}

pub open spec fn node_view(n: PyNode) -> PyNodeView {
    PyNodeView {
        kind: n.kind@,
        text: n.text@,
        field: match n.field {
            Some(f) => Some(f@),
            None => None,
        },
        children: n.children@,
    }
}

pub open spec fn node_views(ns: Seq<PyNode>) -> Seq<PyNodeView> {
    ns.map_values(|n: PyNode| node_view(n))
}

/// Every child of a node comes after it: the nodes are in document order,
/// the root first. No node's text is longer than `i32::MAX` characters.
pub open spec fn tree_ok(nodes: Seq<PyNodeView>) -> bool {
    &&& nodes.len() > 0
    &&& forall|i: int| 0 <= i < nodes.len() ==> (#[trigger] nodes[i]).text.len() <= i32::MAX
    &&& forall|i: int, k: int|
        0 <= i < nodes.len() && 0 <= k < nodes[i].children.len() ==> i < #[trigger] nodes[i].children[k]
            < nodes.len()
}

/// Node `i` has no parent, or its parent comes before it.
pub open spec fn parent_before(node: TsNode, i: int) -> bool {
    match node.4 {
        Some(p) => p < i,
        None => true,
    }
}

/// The positions, among the first `n` nodes, of the children of node `p`,
/// in order.
pub open spec fn children_among(t: Seq<TsNode>, p: int, n: int) -> Seq<usize>
    decreases n,
{
    if n <= 0 {
        Seq::empty()
    } else if t[n - 1].4 == Some(p as usize) {
        children_among(t, p, n - 1).push((n - 1) as usize)
    } else {
        children_among(t, p, n - 1)
    }
}

/// The node `i` of a tree parsed from `source`, in plain values.
pub open spec fn ts_node_view(source: Seq<char>, t: Seq<TsNode>, i: int, n: int) -> PyNodeView {
    PyNodeView { kind: t[i].0, text: utf8_slice(source, t[i].2, t[i].3), field: t[i].1, children: children_among(t, i, n) }
}

/// The nodes tree-sitter's Python grammar gives for the text, each with
/// its kind, its text, the field it fills and its children.
pub open spec fn python_nodes(source: Seq<char>) -> Seq<PyNodeView> {
    let t = python_tree(source);
    Seq::new(t.len(), |i: int| ts_node_view(source, t, i, t.len() as int))
}

/// Whether the tree of the text has a root, every node after its parent,
/// and no node text longer than `i32::MAX` characters.
pub open spec fn parses_ok(source: Seq<char>) -> bool {
    let t = python_tree(source);
    &&& 0 < t.len() <= usize::MAX
    &&& forall|i: int| 0 <= i < t.len() ==> parent_before(#[trigger] t[i], i)
    &&& forall|i: int| 0 <= i < t.len() ==> (#[trigger] python_nodes(source)[i]).text.len() <= i32::MAX
}

/// A parsed Python file.
#[derive(Debug)]
pub struct PySyntax {
    nodes: Vec<PyNode>,
}

impl PySyntax {
    #[verifier::type_invariant]
    spec fn inv(self) -> bool {
        tree_ok(node_views(self.nodes@))
    }

    /// The nodes, the root first.
    pub closed spec fn nodes(self) -> Seq<PyNodeView> {
        node_views(self.nodes@)
    }

    /// A tree from nodes whose children all come after them and whose texts
    /// are at most `i32::MAX` characters long; `None` for other nodes.
    pub fn from_nodes(nodes: Vec<PyNode>) -> (r: Option<PySyntax>)
        ensures
            match r {
                Some(t) => t.nodes() == node_views(nodes@),
                None => !tree_ok(node_views(nodes@)),
            },
    {
        let ghost v = node_views(nodes@);
        if nodes.len() == 0 {
            return None;
        }
        let mut i: usize = 0;
        while i < nodes.len()
            invariant
                v == node_views(nodes@),
                i <= nodes@.len(),
                forall|x: int| 0 <= x < i ==> (#[trigger] v[x]).text.len() <= i32::MAX,
                forall|x: int, k: int|
                    0 <= x < i && 0 <= k < v[x].children.len() ==> x < #[trigger] v[x].children[k] < v.len(),
            decreases nodes.len() - i,
        {
            assert(v[i as int] == node_view(nodes@[i as int]));
            if !text_fits(&nodes[i].text) {
                return None;
            }
            let mut k: usize = 0;
            while k < nodes[i].children.len()
                invariant
                    v == node_views(nodes@),
                    i < nodes@.len(),
                    k <= nodes@[i as int].children@.len(),
                    forall|y: int| 0 <= y < k ==> i < #[trigger] nodes@[i as int].children@[y] < nodes@.len(),
                decreases nodes@[i as int].children@.len() - k,
            {
                let c = nodes[i].children[k];
                if c <= i || c >= nodes.len() {
                    assert(v[i as int].children[k as int] == c);
                    return None;
                }
                k = k + 1;
            }
            assert(v[i as int].children == nodes@[i as int].children@);
            i = i + 1;
        }
        Some(PySyntax { nodes })
    }

    /// How many nodes.
    pub fn len(&self) -> (n: usize)
        ensures
            n == self.nodes().len(),
            tree_ok(self.nodes()),
    {
        proof {
            use_type_invariant(self);
        }
        self.nodes.len()
    }

    /// Node `i`; its children come after it.
    pub fn node(&self, i: usize) -> (r: &PyNode)
        requires
            i < self.nodes().len(),
        ensures
            node_view(*r) == self.nodes()[i as int],
            r.text@.len() <= i32::MAX,
            forall|k: int| 0 <= k < r.children@.len() ==> i < #[trigger] r.children@[k] < self.nodes().len(),
    {
        proof {
            use_type_invariant(self);
            assert(self.nodes()[i as int] == node_view(self.nodes@[i as int]));
            assert forall|k: int| 0 <= k < self.nodes@[i as int].children@.len() implies i
                < #[trigger] self.nodes@[i as int].children@[k] < self.nodes().len() by {
                assert(self.nodes()[i as int].children[k] == self.nodes@[i as int].children@[k]);
            }
        }
        &self.nodes[i]
    }
}

/// The nodes of a text that reads as a tree form a well-formed tree.
pub proof fn lemma_parsed_tree_ok(source: Seq<char>)
    requires
        parses_ok(source),
    ensures
        tree_ok(python_nodes(source)),
{
    let t = python_tree(source);
    let pn = python_nodes(source);
    lemma_children_after(t, t.len() as int);
    assert forall|a: int, k: int|
        0 <= a < pn.len() && 0 <= k < pn[a].children.len() implies a < #[trigger] pn[a].children[k] < pn.len() by {
        assert(pn[a].children == children_among(t, a, t.len() as int));
    }
}

/// Whether the text has at most `i32::MAX` characters.
fn text_fits(s: &String) -> (b: bool)
    ensures
        b == (s@.len() <= i32::MAX),
{
    s.as_str().unicode_len() <= 2147483647
}

proof fn lemma_no_children_yet(t: Seq<TsNode>, p: int, n: int)
    requires
        forall|x: int| 0 <= x < n ==> t[x].4 != Some(p as usize),
    ensures
        children_among(t, p, n) == Seq::<usize>::empty(),
    decreases n,
{
    if n > 0 {
        lemma_no_children_yet(t, p, n - 1);
    }
}

/// Parses Python source with tree-sitter's Python grammar and copies the
/// tree: the nodes are those of `python_nodes`. `None` exactly when that
/// tree does not read as one (see `parses_ok`: a node before its parent,
/// or a node text longer than `i32::MAX` characters).
pub fn parse_python(parser: &mut tree_sitter::Parser, source: &str) -> (r: Option<PySyntax>)
    ensures
        match r {
            Some(t) => parses_ok(source@) && t.nodes() == python_nodes(source@),
            None => !parses_ok(source@),
        },
{
    let tree = match parse_text(parser, source) {
        Some(t) => t,
        None => return None,
    };
    let ghost t = python_tree(source@);
    let ghost pn = python_nodes(source@);
    let n = node_count(&tree);
    let mut nodes: Vec<PyNode> = Vec::new();
    let mut i: usize = 0;
    while i < n
        invariant
            tree_nodes(tree) == t,
            t == python_tree(source@),
            pn == python_nodes(source@),
            n == t.len(),
            i <= n,
            nodes@.len() == i,
            forall|x: int| 0 <= x < i ==> parent_before(#[trigger] t[x], x),
            forall|x: int| 0 <= x < i ==> #[trigger] node_view(nodes@[x]) == ts_node_view(source@, t, x, i as int),
            forall|x: int| 0 <= x < i ==> (#[trigger] nodes@[x]).text@.len() <= i32::MAX,
        decreases n - i,
    {
        let (kind, text, field, parent) = node_at(&tree, source, i);
        if !text_fits(&text) {
            proof {
                assert(pn[i as int] == ts_node_view(source@, t, i as int, n as int));
            }
            return None;
        }
        let ghost before = nodes@;
        proof {
            lemma_no_children_yet(t, i as int, i as int);
        }
        nodes.push(PyNode { kind, text, field, children: Vec::new() });
        match parent {
            Some(p) => {
                if p >= i {
                    return None;
                }
                let ghost mid = nodes@;
                nodes[p].children.push(i);
                proof {
                    assert(t[i as int].4 == Some(p));
                    assert forall|x: int| 0 <= x < i + 1 implies #[trigger] node_view(nodes@[x]) == ts_node_view(
                        source@,
                        t,
                        x,
                        i + 1,
                    ) by {
                        if x == p {
                            assert(mid[x] == before[x]);
                            assert(nodes@[x].children@ =~= before[x].children@.push(i));
                            assert(children_among(t, x, i + 1) == children_among(t, x, i as int).push(i));
                            assert(node_view(before[x]) == ts_node_view(source@, t, x, i as int));
                            assert(node_view(nodes@[x]) =~= ts_node_view(source@, t, x, i + 1));
                        } else if x < i {
                            assert(nodes@[x] == mid[x]);
                            assert(mid[x] == before[x]);
                            assert(t[i as int].4 != Some(x as usize));
                            assert(children_among(t, x, i + 1) == children_among(t, x, i as int));
                            assert(node_view(before[x]) == ts_node_view(source@, t, x, i as int));
                        } else {
                            assert(nodes@[x] == mid[x]);
                            assert(t[i as int].4 != Some(x as usize));
                            assert(children_among(t, x, i + 1) == children_among(t, x, i as int));
                            assert(children_among(t, x, i + 1) =~= Seq::<usize>::empty());
                        }
                    }
                    assert forall|x: int| 0 <= x < i + 1 implies (#[trigger] nodes@[x]).text@.len() <= i32::MAX by {
                        if x < i && x != p {
                            assert(nodes@[x] == before[x]);
                        } else if x == p {
                            assert(nodes@[x].text == before[x].text);
                        }
                    }
                }
            },
            None => {
                proof {
                    assert forall|x: int| 0 <= x < i + 1 implies #[trigger] node_view(nodes@[x]) == ts_node_view(
                        source@,
                        t,
                        x,
                        i + 1,
                    ) by {
                        if x < i {
                            assert(nodes@[x] == before[x]);
                        } else {
                            assert(children_among(t, x, i + 1) =~= Seq::<usize>::empty());
                        }
                    }
                    assert forall|x: int| 0 <= x < i + 1 implies (#[trigger] nodes@[x]).text@.len() <= i32::MAX by {
                        if x < i {
                            assert(nodes@[x] == before[x]);
                        }
                    }
                }
            },
        }
        i = i + 1;
    }
    if n == 0 {
        return None;
    }
    proof {
        assert(node_views(nodes@) =~= pn);
        assert forall|x: int| 0 <= x < t.len() implies (#[trigger] pn[x]).text.len() <= i32::MAX by {
            assert(node_views(nodes@)[x] == node_view(nodes@[x]));
        }
        lemma_children_after(t, n as int);
        assert forall|a: int, k: int|
            0 <= a < pn.len() && 0 <= k < pn[a].children.len() implies a < #[trigger] pn[a].children[k] < pn.len() by {
            assert(pn[a].children == children_among(t, a, n as int));
        }
    }
    Some(PySyntax { nodes })
}

proof fn lemma_children_after(t: Seq<TsNode>, n: int)
    requires
        0 <= n <= t.len(),
        n <= usize::MAX + 1,
        forall|x: int| 0 <= x < n ==> parent_before(#[trigger] t[x], x),
    ensures
        forall|p: int, k: int|
            0 <= p <= usize::MAX && 0 <= k < children_among(t, p, n).len() ==> p < #[trigger] children_among(
                t,
                p,
                n,
            )[k] < n,
    decreases n,
{
    if n > 0 {
        lemma_children_after(t, n - 1);
        assert forall|p: int, k: int|
            0 <= p <= usize::MAX && 0 <= k < children_among(t, p, n).len() implies p < #[trigger] children_among(
                t,
                p,
                n,
            )[k] < n by {
            assert(parent_before(t[n - 1], n - 1));
            if t[n - 1].4 == Some(p as usize) {
                assert(p as usize == p);
                if k < children_among(t, p, n - 1).len() {
                    assert(children_among(t, p, n)[k] == children_among(t, p, n - 1)[k]);
                } else {
                    assert(children_among(t, p, n)[k] == (n - 1) as usize);
                }
            }
        }
    }
}

} // verus!
