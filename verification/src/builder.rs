//! The state builder: from the workspace list and the window tree to the
//! topology.
//!
//! The list is read once, in order. Each workspace joins the ring of its
//! band on its output; its window count is read from its node in the tree.

use vstd::prelude::*;
use crate::model::{StateView, WorkspaceView, band_width, lemma_state_with_wf};
use crate::snapshot::{TreeNode, WorkspaceEntry, count_windows_from_tree, get_workspace_from_tree};
use crate::state::{ProgramState, WorkspaceInfo};
use crate::text::{has_marker, is_marked};

verus! {

/// Why a list and a tree do not make a state. Each names the position in
/// the list of the first workspace that cannot be read.
#[derive(Copy, Clone, Debug, PartialEq, Eq, Structural)]
pub enum StateError {
    /// The tree has no node for the workspace.
    WorkspaceNotFound(usize),
    /// The workspace holds more windows than a machine word counts.
    TooManyWindows(usize),
}

/// The node of a listed workspace in the tree.
pub open spec fn located(tree: TreeNode, entry: WorkspaceEntry) -> Option<TreeNode> {
    tree.locate(entry.output@, entry.name@)
}

/// Whether a listed workspace can be read: the tree has its node, and the
/// windows below that node can be counted.
pub open spec fn readable(tree: TreeNode, entry: WorkspaceEntry) -> bool {
    located(tree, entry) matches Some(node) && node.window_count() <= usize::MAX
}

/// Whether every listed workspace can be read.
pub open spec fn all_readable(tree: TreeNode, entries: Seq<WorkspaceEntry>) -> bool {
    forall|j: int| 0 <= j < entries.len() ==> readable(tree, #[trigger] entries[j])
}

/// Whether an error names the first listed workspace that cannot be read,
/// and gives the reason why it cannot.
pub open spec fn explains(error: StateError, tree: TreeNode, entries: Seq<WorkspaceEntry>) -> bool {
    match error {
        StateError::WorkspaceNotFound(i) => {
            &&& i < entries.len()
            &&& all_readable(tree, entries.take(i as int))
            &&& located(tree, entries[i as int]) is None
        },
        StateError::TooManyWindows(i) => {
            &&& i < entries.len()
            &&& all_readable(tree, entries.take(i as int))
            &&& located(tree, entries[i as int]) matches Some(node) && node.window_count()
                > usize::MAX
        },
    }
}

/// Whether the list reports some workspace as focused.
pub open spec fn reports_focus(entries: Seq<WorkspaceEntry>) -> bool {
    exists|j: int| 0 <= j < entries.len() && (#[trigger] entries[j]).focused
}

/// A listed workspace with its window count.
pub open spec fn listed(tree: TreeNode, entry: WorkspaceEntry) -> WorkspaceView {
    WorkspaceView {
        id: entry.num as nat,
        name: entry.name@,
        active_windows: located(tree, entry)->0.window_count(),
    }
}

/// Whether a listed workspace becomes the current one of its ring: it is
/// visible, or its name carries the marker.
pub open spec fn is_current(entry: WorkspaceEntry) -> bool {
    entry.visible || has_marker(entry.name@)
}

/// The state that a workspace list and a tree describe: the empty state,
/// with the workspaces of the list added one by one, in order.
pub open spec fn built(entries: Seq<WorkspaceEntry>, tree: TreeNode) -> StateView
    decreases entries.len(),
{
    if entries.len() == 0 {
        StateView::empty()
    } else {
        let entry = entries.last();
        built(entries.drop_last(), tree).with(
            entry.output@,
            listed(tree, entry),
            is_current(entry),
            entry.focused,
        )
    }
}

/// Whether the list has a workspace with this number on this output, in
/// this band.
pub open spec fn lists(entries: Seq<WorkspaceEntry>, output: Seq<char>, ring_id: nat, id: nat) -> bool {
    exists|j: int|
        0 <= j < entries.len() && (#[trigger] entries[j]).output@ == output && entries[j].num as nat
            / band_width() == ring_id && entries[j].num as nat == id
}

/// Whether no two entries of the list carry the same number.
pub open spec fn numbers_differ(entries: Seq<WorkspaceEntry>) -> bool {
    forall|a: int, b: int|
        0 <= a < entries.len() && 0 <= b < entries.len() && a != b ==> (#[trigger] entries[a]).num
            != (#[trigger] entries[b]).num
}

/// Every state built from a list is well formed. In particular, in each of
/// its rings the next free number is larger than every number in the ring,
/// and each workspace lies in the ring of its band.
pub proof fn law_built_is_well_formed(entries: Seq<WorkspaceEntry>, tree: TreeNode)
    ensures
        built(entries, tree).wf(),
    decreases entries.len(),
{
    if entries.len() > 0 {
        let entry = entries.last();
        law_built_is_well_formed(entries.drop_last(), tree);
        lemma_state_with_wf(
            built(entries.drop_last(), tree),
            entry.output@,
            listed(tree, entry),
            is_current(entry),
            entry.focused,
        );
    }
}

/// In every ring of a built state, the id of the ring is the hundredth part,
/// rounded down, of the number of each workspace in it.
pub proof fn law_ring_id_is_band_of_members(
    entries: Seq<WorkspaceEntry>,
    tree: TreeNode,
    output: Seq<char>,
    ring_id: nat,
    position: int,
)
    requires
        built(entries, tree).has_ring(output, ring_id),
        0 <= position < built(entries, tree).ring(output, ring_id).workspaces.len(),
    ensures
        built(entries, tree).ring(output, ring_id).ring_id == ring_id,
        built(entries, tree).ring(output, ring_id).workspaces[position].id / band_width()
            == ring_id,
{
    law_built_is_well_formed(entries, tree);
    let state = built(entries, tree);
    assert(state.outputs.contains_key(output));
    assert(state.outputs[output].wf());
    assert(state.outputs[output].workspace_rings.contains_key(ring_id));
    assert(state.ring(output, ring_id).wf());
}

/// In every ring of a built state, the next free number is larger than the
/// number of each workspace in the ring, and one more than the largest of
/// them. No ring of a built state is empty.
pub proof fn law_next_id_above_members(
    entries: Seq<WorkspaceEntry>,
    tree: TreeNode,
    output: Seq<char>,
    ring_id: nat,
)
    requires
        built(entries, tree).has_ring(output, ring_id),
    ensures
        built(entries, tree).ring(output, ring_id).workspaces.len() > 0,
        forall|position: int|
            0 <= position < built(entries, tree).ring(output, ring_id).workspaces.len() ==> (
            #[trigger] built(entries, tree).ring(output, ring_id).workspaces[position]).id < built(
                entries,
                tree,
            ).ring(output, ring_id).next_id,
        built(entries, tree).ring(output, ring_id).holds(
            (built(entries, tree).ring(output, ring_id).next_id - 1) as nat,
        ),
{
    law_built_is_well_formed(entries, tree);
    let state = built(entries, tree);
    assert(state.outputs.contains_key(output));
    assert(state.outputs[output].wf());
    assert(state.outputs[output].workspace_rings.contains_key(ring_id));
    assert(state.ring(output, ring_id).wf());
}

/// The next free ring id of a built state is larger than the id of every
/// ring on any of its outputs.
pub proof fn law_next_ring_id_above_rings(
    entries: Seq<WorkspaceEntry>,
    tree: TreeNode,
    output: Seq<char>,
    ring_id: nat,
)
    requires
        built(entries, tree).has_ring(output, ring_id),
    ensures
        ring_id < built(entries, tree).next_ring_id,
{
    law_built_is_well_formed(entries, tree);
}

/// A ring of a built state holds a number exactly if the list has a
/// workspace with that number on the ring's output and in the ring's band.
pub proof fn law_rings_hold_what_is_listed(
    entries: Seq<WorkspaceEntry>,
    tree: TreeNode,
    output: Seq<char>,
    ring_id: nat,
    id: nat,
)
    ensures
        (built(entries, tree).has_ring(output, ring_id) && built(entries, tree).ring(
            output,
            ring_id,
        ).holds(id)) <==> lists(entries, output, ring_id, id),
    decreases entries.len(),
{
    let state = built(entries, tree);
    if entries.len() == 0 {
        assert(!state.has_ring(output, ring_id));
    } else {
        let entry = entries.last();
        let earlier = entries.drop_last();
        let before = built(earlier, tree);
        let added = listed(tree, entry);
        law_rings_hold_what_is_listed(earlier, tree, output, ring_id, id);
        let here = entry.output@ == output && added.band() == ring_id;
        if lists(entries, output, ring_id, id) {
            let j = choose|j: int|
                0 <= j < entries.len() && (#[trigger] entries[j]).output@ == output
                    && entries[j].num as nat / band_width() == ring_id && entries[j].num as nat
                    == id;
            if j < earlier.len() {
                assert(earlier[j] == entries[j]);
                assert(lists(earlier, output, ring_id, id));
                let p = choose|p: int|
                    0 <= p < before.ring(output, ring_id).workspaces.len() && (
                    #[trigger] before.ring(output, ring_id).workspaces[p]).id == id;
                assert(state.has_ring(output, ring_id));
                assert(state.ring(output, ring_id).workspaces[p] == before.ring(
                    output,
                    ring_id,
                ).workspaces[p]);
            } else {
                let ring = state.ring(output, ring_id);
                assert(ring.workspaces[ring.workspaces.len() - 1] == added);
            }
        }
        if state.has_ring(output, ring_id) && state.ring(output, ring_id).holds(id) {
            let ring = state.ring(output, ring_id);
            let p = choose|p: int|
                0 <= p < ring.workspaces.len() && (#[trigger] ring.workspaces[p]).id == id;
            if here && p == ring.workspaces.len() - 1 {
                assert(entries[entries.len() - 1] == entry);
            } else {
                if here {
                    let old_ring = before.output_or_empty(output).ring_or_empty(ring_id);
                    assert(old_ring.workspaces[p] == ring.workspaces[p]);
                    assert(before.has_ring(output, ring_id));
                    assert(before.ring(output, ring_id).holds(id));
                } else {
                    assert(before.has_ring(output, ring_id));
                    assert(before.ring(output, ring_id) == ring);
                }
                let j = choose|j: int|
                    0 <= j < earlier.len() && (#[trigger] earlier[j]).output@ == output
                        && earlier[j].num as nat / band_width() == ring_id && earlier[j].num as nat
                        == id;
                assert(entries[j] == earlier[j]);
            }
        }
    }
}

/// Where no two listed workspaces carry the same number, no ring of the
/// built state holds a number at two positions.
pub proof fn law_no_number_twice_in_a_ring(
    entries: Seq<WorkspaceEntry>,
    tree: TreeNode,
    output: Seq<char>,
    ring_id: nat,
    p: int,
    q: int,
)
    requires
        numbers_differ(entries),
        built(entries, tree).has_ring(output, ring_id),
        0 <= p < built(entries, tree).ring(output, ring_id).workspaces.len(),
        0 <= q < built(entries, tree).ring(output, ring_id).workspaces.len(),
        built(entries, tree).ring(output, ring_id).workspaces[p].id == built(entries, tree).ring(
            output,
            ring_id,
        ).workspaces[q].id,
    ensures
        p == q,
    decreases entries.len(),
{
    let state = built(entries, tree);
    if entries.len() > 0 {
        let entry = entries.last();
        let earlier = entries.drop_last();
        let before = built(earlier, tree);
        let added = listed(tree, entry);
        let ring = state.ring(output, ring_id);
        let last = ring.workspaces.len() - 1;
        assert(numbers_differ(earlier)) by {
            assert forall|a: int, b: int|
                0 <= a < earlier.len() && 0 <= b < earlier.len() && a != b implies (
            #[trigger] earlier[a]).num != (#[trigger] earlier[b]).num by {
                assert(earlier[a] == entries[a] && earlier[b] == entries[b]);
            }
        }
        if entry.output@ == output && added.band() == ring_id {
            let old_ring = before.output_or_empty(output).ring_or_empty(ring_id);
            if p < last && q < last {
                assert(before.has_ring(output, ring_id));
                assert(old_ring.workspaces[p] == ring.workspaces[p]);
                assert(old_ring.workspaces[q] == ring.workspaces[q]);
                law_no_number_twice_in_a_ring(earlier, tree, output, ring_id, p, q);
            } else if p != q {
                let r = if p < last {
                    p
                } else {
                    q
                };
                assert(ring.workspaces[last] == added);
                assert(old_ring.workspaces[r] == ring.workspaces[r]);
                assert(before.has_ring(output, ring_id));
                assert(before.ring(output, ring_id).holds(added.id));
                law_rings_hold_what_is_listed(earlier, tree, output, ring_id, added.id);
                let j = choose|j: int|
                    0 <= j < earlier.len() && (#[trigger] earlier[j]).output@ == output
                        && earlier[j].num as nat / band_width() == ring_id && earlier[j].num as nat
                        == added.id;
                assert(entries[j] == earlier[j]);
                assert(entries[entries.len() - 1] == entry);
            }
        } else {
            assert(before.has_ring(output, ring_id));
            assert(before.ring(output, ring_id) == ring);
            law_no_number_twice_in_a_ring(earlier, tree, output, ring_id, p, q);
        }
    }
}

/// Where no two listed workspaces carry the same number, each of them is in
/// exactly one ring of the built state: the ring of its band on its output
/// holds its number, and no other ring of any output does.
pub proof fn law_each_workspace_in_one_ring(
    entries: Seq<WorkspaceEntry>,
    tree: TreeNode,
    i: int,
    output: Seq<char>,
    ring_id: nat,
)
    requires
        numbers_differ(entries),
        0 <= i < entries.len(),
    ensures
        built(entries, tree).has_ring(entries[i].output@, entries[i].num as nat / band_width()),
        built(entries, tree).ring(entries[i].output@, entries[i].num as nat / band_width()).holds(
            entries[i].num as nat,
        ),
        built(entries, tree).has_ring(output, ring_id) && built(entries, tree).ring(
            output,
            ring_id,
        ).holds(entries[i].num as nat) ==> output == entries[i].output@ && ring_id
            == entries[i].num as nat / band_width(),
{
    let entry = entries[i];
    let id = entry.num as nat;
    law_rings_hold_what_is_listed(entries, tree, entry.output@, id / band_width(), id);
    assert(lists(entries, entry.output@, id / band_width(), id));
    law_rings_hold_what_is_listed(entries, tree, output, ring_id, id);
    if lists(entries, output, ring_id, id) {
        let j = choose|j: int|
            0 <= j < entries.len() && (#[trigger] entries[j]).output@ == output
                && entries[j].num as nat / band_width() == ring_id && entries[j].num as nat == id;
        assert(j == i);
    }
}

/// The position of the last entry reported focused among the first `n`.
proof fn last_focused(entries: Seq<WorkspaceEntry>, n: int) -> (i: int)
    requires
        0 <= n <= entries.len(),
        exists|j: int| 0 <= j < n && (#[trigger] entries[j]).focused,
    ensures
        0 <= i < n,
        entries[i].focused,
        forall|k: int| i < k < n ==> !(#[trigger] entries[k]).focused,
    decreases n,
{
    if entries[n - 1].focused {
        n - 1
    } else {
        last_focused(entries, n - 1)
    }
}

/// The focus of a built state is where the list says: on the output of the
/// workspace reported focused, in the ring of that workspace's band, and
/// that output and ring exist. Where the list reports several workspaces as
/// focused, the last one counts.
pub proof fn law_focus_follows_the_list(entries: Seq<WorkspaceEntry>, tree: TreeNode, i: int)
    requires
        0 <= i < entries.len(),
        entries[i].focused,
        forall|k: int| i < k < entries.len() ==> !(#[trigger] entries[k]).focused,
    ensures
        built(entries, tree).current_output == entries[i].output@,
        built(entries, tree).current_output_view().current_workspace_ring == entries[i].num as nat
            / band_width(),
        built(entries, tree).focused(),
    decreases entries.len(),
{
    let state = built(entries, tree);
    let entry = entries.last();
    let earlier = entries.drop_last();
    let before = built(earlier, tree);
    let added = listed(tree, entry);
    if i == entries.len() - 1 {
        assert(state.has_ring(entry.output@, added.band()));
    } else {
        assert(earlier[i] == entries[i]);
        assert forall|k: int| i < k < earlier.len() implies !(#[trigger] earlier[k]).focused by {
            assert(earlier[k] == entries[k]);
        }
        law_focus_follows_the_list(earlier, tree, i);
        assert(!entry.focused);
        let current = before.current_output;
        let ring_id = before.current_output_view().current_workspace_ring;
        assert(before.has_ring(current, ring_id));
        assert(state.has_ring(current, ring_id));
    }
}

/// Builds the state from the two replies of the window manager.
///
/// Succeeds exactly if every listed workspace can be read. Otherwise the
/// error names the first one that cannot, and says why.
pub fn get_program_state(workspaces: &Vec<WorkspaceEntry>, tree: &TreeNode) -> (result: Result<
    ProgramState,
    StateError,
>)
    ensures
        match result {
            Ok(state) => {
                &&& state.wf()
                &&& state@ == built(workspaces@, *tree)
                &&& all_readable(*tree, workspaces@)
                &&& reports_focus(workspaces@) ==> state@.focused()
            },
            Err(error) => explains(error, *tree, workspaces@),
        },
{
    let mut state = ProgramState::new();
    let mut i: usize = 0;
    while i < workspaces.len()
        invariant
            i <= workspaces@.len(),
            state.wf(),
            state@ == built(workspaces@.take(i as int), *tree),
            all_readable(*tree, workspaces@.take(i as int)),
        decreases workspaces@.len() - i,
    {
        let workspace = &workspaces[i];
        let node = match get_workspace_from_tree(workspace, tree) {
            Some(node) => node,
            None => {
                return Err(StateError::WorkspaceNotFound(i));
            },
        };
        let active_windows: usize = match count_windows_from_tree(node) {
            Some(count) => count,
            None => {
                return Err(StateError::TooManyWindows(i));
            },
        };
        let marked = workspace.visible || is_marked(&workspace.name);
        let info = WorkspaceInfo { id: workspace.num, name: workspace.name.clone(), active_windows };
        proof {
            let longer = workspaces@.take(i + 1);
            assert(longer.drop_last() =~= workspaces@.take(i as int));
            assert(longer.last() == *workspace);
            assert(info@ == listed(*tree, *workspace));
            assert forall|j: int| 0 <= j < longer.len() implies readable(
                *tree,
                #[trigger] longer[j],
            ) by {
                if j < i {
                    assert(longer[j] == workspaces@.take(i as int)[j]);
                }
            }
        }
        state.record(&workspace.output, info, marked, workspace.focused);
        i += 1;
    }
    proof {
        assert(workspaces@.take(i as int) =~= workspaces@);
        if reports_focus(workspaces@) {
            let last = last_focused(workspaces@, workspaces@.len() as int);
            law_focus_follows_the_list(workspaces@, *tree, last);
        }
    }
    Ok(state)
}

} // verus!
