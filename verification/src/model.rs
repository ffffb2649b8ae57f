//! The mathematical model of the ring topology.
//!
//! A state is a map from output names to outputs, an output is a map from
//! ring ids to rings, and a ring is a sequence of workspaces in the order in
//! which the window manager listed them. The executable types of
//! [`crate::state`] are viewed as these values, and every contract of the
//! crate is stated over them.

use vstd::prelude::*;

verus! {

/// How many workspace numbers one ring spans.
pub open spec fn band_width() -> nat {
    100
}

/// The largest number a workspace can carry.
pub open spec fn max_workspace_id() -> nat {
    0xffff
}

/// A workspace: its number, its name, and how many windows it holds.
pub struct WorkspaceView {
    pub id: nat,
    pub name: Seq<char>,
    pub active_windows: nat,
}

impl WorkspaceView {
    /// The ring that a workspace belongs to: its number divided by the width
    /// of a band, rounded down.
    pub open spec fn band(self) -> nat {
        self.id / band_width()
    }
}

/// A ring: the workspaces of one band on one output, in listing order.
pub struct RingView {
    pub ring_id: nat,
    pub workspaces: Seq<WorkspaceView>,
    /// Position of the workspace that the ring would return to.
    pub current_workspace: nat,
    /// The number to give to a workspace created in this ring.
    pub next_id: nat,
}

impl RingView {
    /// A ring that holds nothing yet.
    pub open spec fn empty(ring_id: nat) -> RingView {
        RingView { ring_id, workspaces: Seq::empty(), current_workspace: 0, next_id: 0 }
    }

    /// The ring after one more workspace was listed. A marked workspace
    /// becomes the current one.
    pub open spec fn with(self, workspace: WorkspaceView, marked: bool) -> RingView {
        RingView {
            ring_id: self.ring_id,
            workspaces: self.workspaces.push(workspace),
            current_workspace: if marked {
                self.workspaces.len()
            } else {
                self.current_workspace
            },
            next_id: if self.next_id <= workspace.id {
                workspace.id + 1
            } else {
                self.next_id
            },
        }
    }

    /// The workspace at the current position.
    pub open spec fn current(self) -> WorkspaceView {
        self.workspaces[self.current_workspace as int]
    }

    /// Whether some position of the ring holds the workspace with this number.
    pub open spec fn holds(self, id: nat) -> bool {
        exists|i: int| 0 <= i < self.workspaces.len() && (#[trigger] self.workspaces[i]).id == id
    }

    /// A ring is never empty, its current position is one of its workspaces,
    /// every workspace lies in the ring's band, and the next free number is
    /// one more than the largest number in the ring.
    pub open spec fn wf(self) -> bool {
        &&& self.workspaces.len() > 0
        &&& self.current_workspace < self.workspaces.len()
        &&& forall|i: int|
            0 <= i < self.workspaces.len() ==> {
                &&& (#[trigger] self.workspaces[i]).id <= max_workspace_id()
                &&& self.workspaces[i].band() == self.ring_id
                &&& self.workspaces[i].id < self.next_id
            }
        &&& self.holds((self.next_id - 1) as nat)
    }
}

/// An output: its rings by ring id, and the id of the ring last focused.
pub struct OutputView {
    pub workspace_rings: Map<nat, RingView>,
    pub current_workspace_ring: nat,
}

impl OutputView {
    /// An output on which nothing was listed yet.
    pub open spec fn empty() -> OutputView {
        OutputView { workspace_rings: Map::empty(), current_workspace_ring: 0 }
    }

    /// The ring with this id, or an empty ring if the output has none.
    pub open spec fn ring_or_empty(self, ring_id: nat) -> RingView {
        if self.workspace_rings.contains_key(ring_id) {
            self.workspace_rings[ring_id]
        } else {
            RingView::empty(ring_id)
        }
    }

    /// The output after one more of its workspaces was listed: the workspace
    /// joins the ring of its band, and a focused workspace makes that ring the
    /// current one.
    pub open spec fn with(self, workspace: WorkspaceView, marked: bool, focused: bool) -> OutputView {
        let ring_id = workspace.band();
        OutputView {
            workspace_rings: self.workspace_rings.insert(
                ring_id,
                self.ring_or_empty(ring_id).with(workspace, marked),
            ),
            current_workspace_ring: if focused {
                ring_id
            } else {
                self.current_workspace_ring
            },
        }
    }

    /// The ring last focused on this output.
    pub open spec fn current_ring(self) -> RingView {
        self.workspace_rings[self.current_workspace_ring]
    }

    /// Every ring is well formed and filed under its own id.
    pub open spec fn wf(self) -> bool {
        forall|k: nat| #[trigger]
            self.workspace_rings.contains_key(k) ==> self.workspace_rings[k].wf()
                && self.workspace_rings[k].ring_id == k
    }
}

/// The whole topology, and where the focus is.
pub struct StateView {
    pub outputs: Map<Seq<char>, OutputView>,
    pub current_output: Seq<char>,
    /// The id to give to a ring created anywhere.
    pub next_ring_id: nat,
}

impl StateView {
    /// The state before anything was listed.
    pub open spec fn empty() -> StateView {
        StateView { outputs: Map::empty(), current_output: Seq::empty(), next_ring_id: 0 }
    }

    /// The output with this name, or an empty output if there is none.
    pub open spec fn output_or_empty(self, name: Seq<char>) -> OutputView {
        if self.outputs.contains_key(name) {
            self.outputs[name]
        } else {
            OutputView::empty()
        }
    }

    /// The state after one more workspace was listed on the named output.
    pub open spec fn with(
        self,
        output: Seq<char>,
        workspace: WorkspaceView,
        marked: bool,
        focused: bool,
    ) -> StateView {
        StateView {
            outputs: self.outputs.insert(
                output,
                self.output_or_empty(output).with(workspace, marked, focused),
            ),
            current_output: if focused {
                output
            } else {
                self.current_output
            },
            next_ring_id: if self.next_ring_id <= workspace.band() {
                workspace.band() + 1
            } else {
                self.next_ring_id
            },
        }
    }

    /// Whether the named output has a ring with this id.
    pub open spec fn has_ring(self, output: Seq<char>, ring_id: nat) -> bool {
        self.outputs.contains_key(output) && self.outputs[output].workspace_rings.contains_key(
            ring_id,
        )
    }

    /// The ring with this id on the named output.
    pub open spec fn ring(self, output: Seq<char>, ring_id: nat) -> RingView {
        self.outputs[output].workspace_rings[ring_id]
    }

    /// Every output is well formed, and the next free ring id is one more
    /// than the largest ring id on any output (zero where there is no ring).
    pub open spec fn wf(self) -> bool {
        &&& forall|name: Seq<char>| #[trigger]
            self.outputs.contains_key(name) ==> self.outputs[name].wf()
        &&& forall|name: Seq<char>, k: nat| #[trigger]
            self.has_ring(name, k) ==> k < self.next_ring_id
        &&& self.next_ring_id == 0 || exists|name: Seq<char>, k: nat| #[trigger]
            self.has_ring(name, k) && k + 1 == self.next_ring_id
    }

    /// Whether the focus is somewhere: the current output exists, and so does
    /// its current ring.
    pub open spec fn focused(self) -> bool {
        self.has_ring(self.current_output, self.current_output_view().current_workspace_ring)
    }

    /// The output that has the focus.
    pub open spec fn current_output_view(self) -> OutputView {
        self.outputs[self.current_output]
    }

    /// The ring that has the focus.
    pub open spec fn current_ring(self) -> RingView {
        self.current_output_view().current_ring()
    }
}

/// A well-formed ring stays well formed when a workspace of its band joins.
pub proof fn lemma_ring_with_wf(ring: RingView, workspace: WorkspaceView, marked: bool)
    requires
        ring.wf() || ring == RingView::empty(ring.ring_id),
        workspace.id <= max_workspace_id(),
        workspace.band() == ring.ring_id,
    ensures
        ring.with(workspace, marked).wf(),
{
    let after = ring.with(workspace, marked);
    let n = ring.workspaces.len() as int;
    assert(after.workspaces[n] == workspace);
    assert forall|i: int| 0 <= i < after.workspaces.len() implies {
        &&& (#[trigger] after.workspaces[i]).id <= max_workspace_id()
        &&& after.workspaces[i].band() == after.ring_id
        &&& after.workspaces[i].id < after.next_id
    } by {
        if i < n {
            assert(after.workspaces[i] == ring.workspaces[i]);
        }
    }
    if ring.next_id <= workspace.id {
        assert(after.workspaces[n].id == (after.next_id - 1) as nat);
    } else {
        let i = choose|i: int|
            0 <= i < ring.workspaces.len() && (#[trigger] ring.workspaces[i]).id == (ring.next_id
                - 1) as nat;
        assert(after.workspaces[i] == ring.workspaces[i]);
    }
}

/// A well-formed output stays well formed when a workspace is listed on it.
pub proof fn lemma_output_with_wf(
    output: OutputView,
    workspace: WorkspaceView,
    marked: bool,
    focused: bool,
)
    requires
        output.wf(),
        workspace.id <= max_workspace_id(),
    ensures
        output.with(workspace, marked, focused).wf(),
{
    let ring_id = workspace.band();
    let after = output.with(workspace, marked, focused);
    lemma_ring_with_wf(output.ring_or_empty(ring_id), workspace, marked);
    assert forall|k: nat| #[trigger] after.workspace_rings.contains_key(k) implies after.workspace_rings[k].wf()
        && after.workspace_rings[k].ring_id == k by {
        if k != ring_id {
            assert(output.workspace_rings.contains_key(k));
        }
    }
}

/// A well-formed state stays well formed when a workspace is listed.
pub proof fn lemma_state_with_wf(
    state: StateView,
    output: Seq<char>,
    workspace: WorkspaceView,
    marked: bool,
    focused: bool,
)
    requires
        state.wf(),
        workspace.id <= max_workspace_id(),
    ensures
        state.with(output, workspace, marked, focused).wf(),
{
    let ring_id = workspace.band();
    let after = state.with(output, workspace, marked, focused);
    lemma_output_with_wf(state.output_or_empty(output), workspace, marked, focused);
    assert(OutputView::empty().wf());
    assert forall|name: Seq<char>| #[trigger] after.outputs.contains_key(name) implies after.outputs[name].wf() by {
        if name != output {
            assert(state.outputs.contains_key(name));
        }
    }
    assert forall|name: Seq<char>, k: nat| #[trigger] after.has_ring(name, k) implies k
        < after.next_ring_id by {
        if name != output || k != ring_id {
            assert(state.has_ring(name, k));
        }
    }
    assert(after.has_ring(output, ring_id));
    if state.next_ring_id > ring_id {
        let (name, k) = choose|name: Seq<char>, k: nat| #[trigger]
            state.has_ring(name, k) && k + 1 == state.next_ring_id;
        assert(after.has_ring(name, k));
    }
}

} // verus!
