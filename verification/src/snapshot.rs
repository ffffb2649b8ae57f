//! What the window manager reports: the flat list of workspaces and the
//! tree of windows, and how one is found in the other.

use vstd::prelude::*;

verus! {

/// One entry of the workspace list.
#[derive(Debug)]
pub struct WorkspaceEntry {
    /// Name of the output that shows the workspace.
    pub output: String,
    /// The workspace's number.
    pub num: u16,
    pub name: String,
    pub visible: bool,
    pub focused: bool,
}

/// What kind of container a node of the tree is.
#[derive(Copy, Clone, Debug, PartialEq, Eq, Structural)]
pub enum NodeKind {
    Workspace,
    Other,
}

/// A node of the window tree.
#[derive(Debug)]
pub struct TreeNode {
    pub name: Option<String>,
    pub kind: NodeKind,
    /// The id of the window that the node shows, if it shows one.
    pub window: Option<i32>,
    pub nodes: Vec<TreeNode>,
}

/// The test for a node that shows a window.
pub open spec fn shows_window() -> spec_fn(TreeNode) -> bool {
    |node: TreeNode| node.window is Some
}

/// How many nodes of a sequence show a window.
pub open spec fn windows_in(nodes: Seq<TreeNode>) -> nat {
    nodes.filter(shows_window()).len()
}

/// The first workspace node of a sequence that carries the given name.
pub open spec fn first_workspace(nodes: Seq<TreeNode>, name: Seq<char>) -> Option<TreeNode>
    decreases nodes.len(),
{
    if nodes.len() == 0 {
        None
    } else if nodes[0].is_workspace_named(name) {
        Some(nodes[0])
    } else {
        first_workspace(nodes.drop_first(), name)
    }
}

impl TreeNode {
    /// Whether the node carries the given name.
    pub open spec fn is_named(self, name: Seq<char>) -> bool {
        self.name matches Some(own) && own@ == name
    }

    /// Whether the node is a workspace container with the given name.
    pub open spec fn is_workspace_named(self, name: Seq<char>) -> bool {
        self.kind == NodeKind::Workspace && self.is_named(name)
    }

    /// The first `k` children, each followed by all that lies below it,
    /// depth first.
    pub open spec fn below_first(self, k: nat) -> Seq<TreeNode>
        decreases self, k,
    {
        if k == 0 || k > self.nodes@.len() {
            Seq::empty()
        } else {
            self.below_first((k - 1) as nat) + seq![self.nodes@[k - 1]] + self.nodes@[k
                - 1].below_first(self.nodes@[k - 1].nodes@.len())
        }
    }

    /// All nodes below this one, depth first: each child is followed by its
    /// own descendants, then comes the next child.
    pub open spec fn descendants(self) -> Seq<TreeNode> {
        self.below_first(self.nodes@.len())
    }

    /// How many nodes below this one show a window.
    pub open spec fn window_count(self) -> nat {
        windows_in(self.descendants())
    }

    /// The descendants of those among the first `k` children that carry the
    /// name of the given output, in order.
    pub open spec fn below_outputs(self, output: Seq<char>, k: nat) -> Seq<TreeNode>
        decreases k,
    {
        if k == 0 || k > self.nodes@.len() {
            Seq::empty()
        } else if self.nodes@[k - 1].is_named(output) {
            self.below_outputs(output, (k - 1) as nat) + self.nodes@[k - 1].descendants()
        } else {
            self.below_outputs(output, (k - 1) as nat)
        }
    }

    /// The node of a workspace: of the top-level branches that carry the
    /// name of the workspace's output, the first descendant that is a
    /// workspace container with the workspace's name.
    pub open spec fn locate(self, output: Seq<char>, name: Seq<char>) -> Option<TreeNode> {
        first_workspace(self.below_outputs(output, self.nodes@.len()), name)
    }

    /// What lies below the first `k` children begins with what lies below
    /// the first `j` of them.
    pub proof fn lemma_below_first_extends(self, j: nat, k: nat) -> (rest: Seq<TreeNode>)
        requires
            j <= k <= self.nodes@.len(),
        ensures
            self.below_first(k) == self.below_first(j) + rest,
        decreases k - j,
    {
        if j == k {
            assert(self.below_first(k) =~= self.below_first(j) + Seq::<TreeNode>::empty());
            Seq::empty()
        } else {
            let before = self.lemma_below_first_extends(j, (k - 1) as nat);
            let rest = before + seq![self.nodes@[k - 1]] + self.nodes@[k - 1].descendants();
            assert(self.below_first(k) =~= self.below_first(j) + rest);
            rest
        }
    }

    /// The same for the descendants of the branches of one output.
    pub proof fn lemma_below_outputs_extends(self, output: Seq<char>, j: nat, k: nat) -> (rest: Seq<
        TreeNode,
    >)
        requires
            j <= k <= self.nodes@.len(),
        ensures
            self.below_outputs(output, k) == self.below_outputs(output, j) + rest,
        decreases k - j,
    {
        if j == k {
            assert(self.below_outputs(output, k) =~= self.below_outputs(output, j) + Seq::<
                TreeNode,
            >::empty());
            Seq::empty()
        } else {
            let before = self.lemma_below_outputs_extends(output, j, (k - 1) as nat);
            let rest = if self.nodes@[k - 1].is_named(output) {
                before + self.nodes@[k - 1].descendants()
            } else {
                before
            };
            assert(self.below_outputs(output, k) =~= self.below_outputs(output, j) + rest);
            rest
        }
    }
}

/// The windows of two sequences joined are those of the one and of the other.
pub proof fn lemma_windows_in_joined(a: Seq<TreeNode>, b: Seq<TreeNode>)
    ensures
        windows_in(a + b) == windows_in(a) + windows_in(b),
{
    Seq::filter_distributes_over_add(a, b, shows_window());
}

/// A single node counts for one if it shows a window.
pub proof fn lemma_windows_in_one(node: TreeNode)
    ensures
        windows_in(seq![node]) == if node.window is Some {
            1nat
        } else {
            0nat
        },
{
    reveal_with_fuel(Seq::filter, 2);
    assert(seq![node].drop_last() =~= Seq::<TreeNode>::empty());
}

/// The first match of two sequences joined is that of the first sequence,
/// and that of the second where the first has none.
pub proof fn lemma_first_workspace_joined(a: Seq<TreeNode>, b: Seq<TreeNode>, name: Seq<char>)
    ensures
        first_workspace(a + b, name) == if first_workspace(a, name) is Some {
            first_workspace(a, name)
        } else {
            first_workspace(b, name)
        },
    decreases a.len(),
{
    if a.len() == 0 {
        assert(a + b =~= b);
    } else {
        assert((a + b)[0] == a[0]);
        assert((a + b).drop_first() =~= a.drop_first() + b);
        lemma_first_workspace_joined(a.drop_first(), b, name);
    }
}

/// Counts the windows below a node, at any depth. The count is `None`
/// where it does not fit the machine's word.
pub fn count_windows_from_tree(tree: &TreeNode) -> (count: Option<usize>)
    ensures
        match count {
            Some(n) => n == tree.window_count(),
            None => tree.window_count() > usize::MAX,
        },
    decreases tree,
{
    let mut res: usize = 0;
    let mut i: usize = 0;
    while i < tree.nodes.len()
        invariant
            i <= tree.nodes@.len(),
            res == windows_in(tree.below_first(i as nat)),
        decreases tree.nodes@.len() - i,
    {
        let node = &tree.nodes[i];
        proof {
            let before = tree.below_first(i as nat);
            lemma_windows_in_joined(before + seq![*node], node.descendants());
            lemma_windows_in_joined(before, seq![*node]);
            lemma_windows_in_one(*node);
            let rest = tree.lemma_below_first_extends((i + 1) as nat, tree.nodes@.len() as nat);
            lemma_windows_in_joined(tree.below_first((i + 1) as nat), rest);
        }
        let own: usize = if node.window.is_some() {
            1
        } else {
            0
        };
        let below: usize = match count_windows_from_tree(node) {
            Some(n) => n,
            None => {
                return None;
            },
        };
        let grown: usize = match res.checked_add(own) {
            Some(n) => n,
            None => {
                return None;
            },
        };
        res = match grown.checked_add(below) {
            Some(n) => n,
            None => {
                return None;
            },
        };
        i += 1;
    }
    Some(res)
}

/// Finds below a node, at any depth, the first workspace container with the
/// given name.
pub fn find_workspace_below<'a>(node: &'a TreeNode, name: &String) -> (found: Option<&'a TreeNode>)
    ensures
        match found {
            Some(hit) => first_workspace(node.descendants(), name@) == Some(*hit),
            None => first_workspace(node.descendants(), name@) is None,
        },
    decreases node,
{
    let mut i: usize = 0;
    while i < node.nodes.len()
        invariant
            i <= node.nodes@.len(),
            first_workspace(node.below_first(i as nat), name@) is None,
        decreases node.nodes@.len() - i,
    {
        let child = &node.nodes[i];
        proof {
            let before = node.below_first(i as nat);
            lemma_first_workspace_joined(before + seq![*child], child.descendants(), name@);
            lemma_first_workspace_joined(before, seq![*child], name@);
            assert(seq![*child].drop_first() =~= Seq::<TreeNode>::empty());
            assert(first_workspace(seq![*child], name@) == if child.is_workspace_named(name@) {
                Some(*child)
            } else {
                None
            }) by {
                reveal_with_fuel(first_workspace, 2);
            }
            let rest = node.lemma_below_first_extends((i + 1) as nat, node.nodes@.len() as nat);
            lemma_first_workspace_joined(node.below_first((i + 1) as nat), rest, name@);
        }
        let named: bool = match &child.name {
            Some(own) => *own == *name,
            None => false,
        };
        if child.kind == NodeKind::Workspace && named {
            return Some(child);
        }
        match find_workspace_below(child, name) {
            Some(hit) => {
                return Some(hit);
            },
            None => {},
        }
        i += 1;
    }
    None
}

/// Finds the node of a listed workspace in the tree: below the top-level
/// branches named like the workspace's output, the first workspace container
/// named like the workspace.
pub fn get_workspace_from_tree<'a>(ws: &WorkspaceEntry, root: &'a TreeNode) -> (found: Option<
    &'a TreeNode,
>)
    ensures
        match found {
            Some(hit) => root.locate(ws.output@, ws.name@) == Some(*hit),
            None => root.locate(ws.output@, ws.name@) is None,
        },
{
    let mut i: usize = 0;
    while i < root.nodes.len()
        invariant
            i <= root.nodes@.len(),
            first_workspace(root.below_outputs(ws.output@, i as nat), ws.name@) is None,
        decreases root.nodes@.len() - i,
    {
        let branch = &root.nodes[i];
        proof {
            lemma_first_workspace_joined(
                root.below_outputs(ws.output@, i as nat),
                branch.descendants(),
                ws.name@,
            );
            let rest = root.lemma_below_outputs_extends(
                ws.output@,
                (i + 1) as nat,
                root.nodes@.len() as nat,
            );
            lemma_first_workspace_joined(
                root.below_outputs(ws.output@, (i + 1) as nat),
                rest,
                ws.name@,
            );
        }
        let named: bool = match &branch.name {
            Some(own) => *own == ws.output,
            None => false,
        };
        if named {
            match find_workspace_below(branch, &ws.name) {
                Some(hit) => {
                    return Some(hit);
                },
                None => {},
            }
        }
        i += 1;
    }
    None
}

} // verus!
