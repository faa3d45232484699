//! The staged tree as it is shown before anything is written: a tree of
//! names below the destination, and the lines that draw it.
//!
//! Printing and colours are not done here.

use vstd::prelude::*;
use vstd::string::StringExecFns;
use crate::paths::file_name_of;
use crate::paths::joined;
use crate::paths::parent_of;
use crate::paths::path_file_name;
use crate::paths::path_join;
use crate::paths::path_parent;
use crate::vfs::EntryView;
use crate::vfs::VirtualFS;

verus! {

/// A node of the tree: a file or a directory, with the places of its
/// children among the nodes of the tree.
#[derive(Debug, Clone, PartialEq, Eq)]
pub struct TreeNode {
    pub name: String,
    pub children: Vec<usize>,
    pub is_file: bool,
}

/// A tree; its root is the first node.
#[derive(Debug, PartialEq, Eq)]
pub struct Tree {
    nodes: Vec<TreeNode>,
}

pub struct NodeView {
    pub name: Seq<char>,
    pub children: Seq<int>,
    pub is_file: bool,
}

impl View for TreeNode {
    type V = NodeView;

    open spec fn view(&self) -> NodeView {
        NodeView {
            name: self.name@,
            children: Seq::new(self.children@.len(), |i: int| self.children@[i] as int),
            is_file: self.is_file,
        }
    }
}

/// The views of a list of nodes.
pub open spec fn node_views(nodes: Seq<TreeNode>) -> Seq<NodeView> {
    Seq::new(nodes.len(), |i: int| nodes[i]@)
}

impl View for Tree {
    type V = Seq<NodeView>;

    closed spec fn view(&self) -> Seq<NodeView> {
        node_views(self.nodes@)
    }
}

impl Tree {
    #[verifier::type_invariant]
    spec fn well_formed(&self) -> bool {
        is_well_formed(node_views(self.nodes@))
    }

    /// The nodes of the tree; the root is the first.
    pub fn nodes(&self) -> (nodes: &Vec<TreeNode>)
        ensures
            node_views(nodes@) == self@,
            is_well_formed(self@),
    {
        proof {
            use_type_invariant(self);
        }
        &self.nodes
    }
}

impl TreeNode {
    /// A copy of the node.
    pub fn duplicate(&self) -> (copy: Self)
        ensures
            copy@ == self@,
            copy.children@ == self.children@,
    {
        let mut children: Vec<usize> = Vec::new();
        let mut i: usize = 0;
        while i < self.children.len()
            invariant
                i <= self.children.len(),
                children@ == self.children@.take(i as int),
            decreases self.children.len() - i,
        {
            children.push(self.children[i]);
            proof {
                assert(children@ =~= self.children@.take(i + 1));
            }
            i += 1;
        }
        proof {
            assert(self.children@.take(self.children@.len() as int) =~= self.children@);
        }
        let copy = Self { name: self.name.clone(), children, is_file: self.is_file };
        proof {
            assert(copy@.children =~= self@.children);
        }
        copy
    }

    pub fn new(name: String, is_file: bool) -> (node: Self)
        ensures
            node@ == (NodeView { name: name@, children: Seq::empty(), is_file }),
    {
        let node = Self { name, children: Vec::new(), is_file };
        proof {
            assert(node@.children =~= Seq::<int>::empty());
        }
        node
    }
}

/// A growing tree, with the nodes that paths were seen for.
pub struct Growth {
    pub nodes: Seq<NodeView>,
    pub seen: Seq<(Seq<char>, int)>,
}

/// The node that was seen last for a path.
pub open spec fn seen_at(seen: Seq<(Seq<char>, int)>, path: Seq<char>) -> Option<int>
    decreases seen.len(),
{
    if seen.len() == 0 {
        None
    } else if seen.last().0 == path {
        Some(seen.last().1)
    } else {
        seen_at(seen.drop_last(), path)
    }
}

/// The name that a path is shown by: its last component, or all of it when
/// it has none.
pub open spec fn shown_name(path: Seq<char>) -> Seq<char> {
    match file_name_of(path) {
        Some(name) => name,
        None => path,
    }
}

/// The tree of a destination alone.
pub open spec fn seed(destination: Seq<char>) -> Growth {
    Growth {
        nodes: seq![
            NodeView { name: shown_name(destination), children: Seq::empty(), is_file: false },
        ],
        seen: seq![(destination, 0int)],
    }
}

/// The tree with one more staged entry: the entry becomes the last child of
/// the node seen for its parent. An entry without a destination, without a
/// parent, or whose parent was not seen leaves the tree as it is.
pub open spec fn grown(tree: Growth, destination: Seq<char>, entry: EntryView) -> Growth {
    match entry.destination {
        Some(relative) => {
            let full = joined(destination, relative);
            match parent_of(full) {
                Some(parent) => match seen_at(tree.seen, parent) {
                    Some(above) if 0 <= above < tree.nodes.len() => {
                        let child = NodeView {
                            name: shown_name(full),
                            children: Seq::empty(),
                            is_file: entry.is_file,
                        };
                        let at = tree.nodes.len() as int;
                        let host = tree.nodes[above];
                        Growth {
                            nodes: tree.nodes.update(
                                above,
                                NodeView {
                                    name: host.name,
                                    children: host.children.push(at),
                                    is_file: host.is_file,
                                },
                            ).push(child),
                            seen: tree.seen.push((full, at)),
                        }
                    },
                    _ => tree,
                },
                None => tree,
            }
        },
        None => tree,
    }
}

/// The tree of a destination with the staged entries below it.
pub open spec fn built(entries: Seq<EntryView>, destination: Seq<char>) -> Growth
    decreases entries.len(),
{
    if entries.len() == 0 {
        seed(destination)
    } else {
        grown(built(entries.drop_last(), destination), destination, entries.last())
    }
}

/// Every child comes after its parent, and is a node of the tree.
pub open spec fn is_well_formed(nodes: Seq<NodeView>) -> bool {
    forall|i: int, k: int|
        0 <= i < nodes.len() && 0 <= k < nodes[i].children.len() ==> i < #[trigger] nodes[i].children[k]
            < nodes.len()
}

/// The node that was seen last for a path.
fn find_seen(seen: &Vec<(String, usize)>, path: &str) -> (r: Option<usize>)
    ensures
        match r {
            Some(at) => seen_at(seen_views(seen@), path@) == Some(at as int),
            None => seen_at(seen_views(seen@), path@) is None,
        },
{
    let ghost all = seen_views(seen@);
    let mut i: usize = seen.len();
    proof {
        assert(all.take(all.len() as int) =~= all);
    }
    while i > 0
        invariant
            i <= seen.len(),
            all == seen_views(seen@),
            seen_at(all, path@) == seen_at(all.take(i as int), path@),
        decreases i,
    {
        proof {
            let upto = all.take(i as int);
            assert(upto.drop_last() =~= all.take(i - 1));
            assert(upto.last() == (seen[i - 1].0@, seen[i - 1].1 as int));
        }
        if crate::text::same_text(seen[i - 1].0.as_str(), path) {
            return Some(seen[i - 1].1);
        }
        i -= 1;
    }
    None
}

/// The views of the paths seen.
pub open spec fn seen_views(seen: Seq<(String, usize)>) -> Seq<(Seq<char>, int)> {
    Seq::new(seen.len(), |i: int| (seen[i].0@, seen[i].1 as int))
}

/// The name that a path is shown by.
fn name_of(path: &str) -> (name: String)
    ensures
        name@ == shown_name(path@),
{
    match path_file_name(path) {
        Some(name) => name,
        None => path.to_owned(),
    }
}

/// Builds the tree of the staged entries below the destination. The root
/// stands for the destination; every entry whose parent directory was
/// staged before it, or is the destination, hangs below that parent.
pub fn build_tree(vfs: &VirtualFS, destination: &str) -> (tree: Tree)
    ensures
        tree@ == built(vfs@, destination@).nodes,
        tree@.len() >= 1,
        is_well_formed(tree@),
{
    let mut nodes: Vec<TreeNode> = Vec::new();
    nodes.push(TreeNode::new(name_of(destination), false));
    let mut seen: Vec<(String, usize)> = Vec::new();
    seen.push((destination.to_owned(), 0));
    let ghost entries = vfs@;
    let mut i: usize = 0;
    proof {
        assert(node_views(nodes@) =~= seed(destination@).nodes);
        assert(seen_views(seen@) =~= seed(destination@).seen);
    }
    while i < vfs.entries.len()
        invariant
            i <= vfs.entries.len(),
            entries == vfs@,
            node_views(nodes@) == built(entries.take(i as int), destination@).nodes,
            seen_views(seen@) == built(entries.take(i as int), destination@).seen,
            node_views(nodes@).len() >= 1,
            is_well_formed(node_views(nodes@)),
        decreases vfs.entries.len() - i,
    {
        let entry = &vfs.entries[i];
        let ghost before = built(entries.take(i as int), destination@);
        proof {
            let next = entries.take(i + 1);
            assert(next.drop_last() =~= entries.take(i as int));
            assert(next.last() == entry@);
        }
        match &entry.destination {
            Some(relative) => {
                let full = path_join(destination, relative.as_str());
                match path_parent(full.as_str()) {
                    Some(parent) => match find_seen(&seen, parent.as_str()) {
                        Some(above) => {
                            if above < nodes.len() {
                                let at: usize = nodes.len();
                                let child = TreeNode::new(name_of(full.as_str()), entry.is_file);
                                let ghost old_nodes = node_views(nodes@);
                                let ghost host = node_views(nodes@)[above as int];
                                let mut host_node = nodes[above].duplicate();
                                host_node.children.push(at);
                                proof {
                                    assert(host_node@.children =~= host.children.push(at as int));
                                }
                                nodes.set(above, host_node);
                                nodes.push(child);
                                seen.push((full, at));
                                proof {
                                    let after = grown(before, destination@, entry@);
                                    assert(node_views(nodes@) =~= after.nodes);
                                    assert(seen_views(seen@) =~= after.seen);
                                    assert forall|a: int, k: int|
                                        0 <= a < node_views(nodes@).len() && 0 <= k < node_views(nodes@)[a].children.len() implies a
                                        < #[trigger] node_views(nodes@)[a].children[k] < node_views(nodes@).len() by {
                                        if a == above as int {
                                            if k < host.children.len() {
                                                assert(node_views(nodes@)[a].children[k] == old_nodes[a].children[k]);
                                            }
                                        } else if a < old_nodes.len() {
                                            assert(node_views(nodes@)[a].children[k] == old_nodes[a].children[k]);
                                        }
                                    }
                                }
                            }
                        },
                        None => {},
                    },
                    None => {},
                }
            },
            None => {},
        }
        i += 1;
    }
    proof {
        assert(entries.take(entries.len() as int) =~= entries);
    }
    Tree { nodes }
}

/// One line of the drawing: what stands before the node, whether the node
/// is the last of its parent's children, and the node itself.
#[derive(Debug, Clone, PartialEq, Eq)]
pub struct PreviewLine {
    pub prefix: String,
    pub is_last: bool,
    pub name: String,
    pub is_file: bool,
}

pub struct LineView {
    pub prefix: Seq<char>,
    pub is_last: bool,
    pub name: Seq<char>,
    pub is_file: bool,
}

impl View for PreviewLine {
    type V = LineView;

    open spec fn view(&self) -> LineView {
        LineView { prefix: self.prefix@, is_last: self.is_last, name: self.name@, is_file: self.is_file }
    }
}

/// The views of a list of lines.
pub open spec fn line_views(lines: Seq<PreviewLine>) -> Seq<LineView> {
    Seq::new(lines.len(), |i: int| lines[i]@)
}

/// What joins a node to the line of its parent.
pub open spec fn connector(is_last: bool) -> Seq<char> {
    if is_last {
        "└── "@
    } else {
        "├── "@
    }
}

/// What stands before the children of a node.
pub open spec fn child_prefix(prefix: Seq<char>, is_last: bool) -> Seq<char> {
    prefix + if is_last {
        "    "@
    } else {
        "│   "@
    }
}

/// The lines of the node at `at` and of everything below it.
pub open spec fn lines_of(nodes: Seq<NodeView>, at: int, prefix: Seq<char>, is_last: bool) -> Seq<
    LineView,
>
    decreases nodes.len() - at, 1int, 0int,
{
    if 0 <= at < nodes.len() {
        seq![LineView { prefix, is_last, name: nodes[at].name, is_file: nodes[at].is_file }]
            + lines_below(nodes, at, 0, child_prefix(prefix, is_last))
    } else {
        Seq::empty()
    }
}

/// The lines of the children of the node at `at`, from its `from`-th child
/// on.
pub open spec fn lines_below(nodes: Seq<NodeView>, at: int, from: int, prefix: Seq<char>) -> Seq<
    LineView,
>
    decreases nodes.len() - at, 0int, nodes[at].children.len() - from,
{
    if 0 <= at < nodes.len() && 0 <= from < nodes[at].children.len() {
        let child = nodes[at].children[from];
        (if at < child < nodes.len() {
            lines_of(nodes, child, prefix, from == nodes[at].children.len() - 1)
        } else {
            Seq::empty()
        }) + lines_below(nodes, at, from + 1, prefix)
    } else {
        Seq::empty()
    }
}

impl PreviewLine {
    /// The line as plain text.
    pub fn to_string(&self) -> (text: String)
        ensures
            text@ == self.prefix@ + connector(self.is_last) + self.name@,
    {
        let mut text = self.prefix.clone();
        if self.is_last {
            text.append("└── ");
        } else {
            text.append("├── ");
        }
        text.append(self.name.as_str());
        text
    }
}

/// Appends the lines of the node at `at` and of everything below it.
fn push_lines(nodes: &Vec<TreeNode>, at: usize, prefix: &str, is_last: bool, lines: &mut Vec<PreviewLine>)
    requires
        is_well_formed(node_views(nodes@)),
        at < node_views(nodes@).len(),
    ensures
        line_views(final(lines)@) == line_views(old(lines)@) + lines_of(
            node_views(nodes@),
            at as int,
            prefix@,
            is_last,
        ),
    decreases node_views(nodes@).len() - at,
{
    let ghost start = line_views(lines@);
    let node = &nodes[at];
    proof {
        assert(node_views(nodes@)[at as int] == node@);
    }
    lines.push(
        PreviewLine { prefix: prefix.to_owned(), is_last, name: node.name.clone(), is_file: node.is_file },
    );
    let mut below = prefix.to_owned();
    if is_last {
        below.append("    ");
    } else {
        below.append("│   ");
    }
    let ghost own = LineView { prefix: prefix@, is_last, name: node@.name, is_file: node@.is_file };
    let ghost target = start + lines_of(node_views(nodes@), at as int, prefix@, is_last);
    proof {
        assert(line_views(lines@) =~= start + seq![own]);
        assert(line_views(lines@) + lines_below(node_views(nodes@), at as int, 0, below@) =~= target);
    }
    let mut k: usize = 0;
    while k < node.children.len()
        invariant
            k <= node.children.len(),
            is_well_formed(node_views(nodes@)),
            at < node_views(nodes@).len(),
            node_views(nodes@)[at as int] == node@,
            line_views(lines@) + lines_below(node_views(nodes@), at as int, k as int, below@) == target,
        decreases node.children.len() - k,
    {
        let child: usize = node.children[k];
        let ghost so_far = line_views(lines@);
        proof {
            assert(node@.children[k as int] == child as int);
            assert(at < child < node_views(nodes@).len());
        }
        push_lines(nodes, child, below.as_str(), k == node.children.len() - 1, lines);
        proof {
            let mine = lines_of(node_views(nodes@), child as int, below@, k == node.children.len() - 1);
            let rest = lines_below(node_views(nodes@), at as int, k + 1, below@);
            assert(lines_below(node_views(nodes@), at as int, k as int, below@) == mine + rest);
            assert((so_far + mine) + rest =~= so_far + (mine + rest));
        }
        k += 1;
    }
    proof {
        assert(lines_below(node_views(nodes@), at as int, k as int, below@) =~= Seq::<LineView>::empty());
        assert(line_views(lines@) + Seq::<LineView>::empty() =~= line_views(lines@));
    }
}

/// The lines that draw a tree, from its root down: every node on a line of
/// its own, its children below it in their order.
pub fn tree_lines(tree: &Tree) -> (lines: Vec<PreviewLine>)
    ensures
        line_views(lines@) == lines_of(tree@, 0, Seq::empty(), true),
{
    let mut lines: Vec<PreviewLine> = Vec::new();
    let nodes = tree.nodes();
    if nodes.len() > 0 {
        push_lines(nodes, 0, "", true, &mut lines);
        proof {
            reveal_strlit("");
            assert(""@ =~= Seq::<char>::empty());
            assert(line_views(lines@) =~= lines_of(tree@, 0, Seq::empty(), true));
        }
    } else {
        proof {
            assert(line_views(lines@) =~= lines_of(tree@, 0, Seq::empty(), true));
        }
    }
    lines
}

/// The lines that draw the staged tree below the destination.
pub fn preview_as_tree(vfs: &VirtualFS, destination: &str) -> (lines: Vec<PreviewLine>)
    ensures
        line_views(lines@) == lines_of(
            built(vfs@, destination@).nodes,
            0,
            Seq::empty(),
            true,
        ),
{
    let tree = build_tree(vfs, destination);
    tree_lines(&tree)
}

} // verus!
