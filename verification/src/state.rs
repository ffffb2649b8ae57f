//! The executable snapshot of the topology.
//!
//! Outputs and rings are kept in vectors; no name and no ring id occurs
//! twice, so each vector is viewed as the map of [`crate::model`].

use vstd::prelude::*;
use crate::model::{WorkspaceView, RingView, OutputView, StateView, lemma_state_with_wf};
use crate::table::{table, lemma_table_entry, lemma_table_push, lemma_table_update};

verus! {

/// One workspace as the window manager listed it, with its window count.
#[derive(Debug)]
pub struct WorkspaceInfo {
    pub id: u16,
    pub name: String,
    pub active_windows: usize,
}

impl View for WorkspaceInfo {
    type V = WorkspaceView;

    open spec fn view(&self) -> WorkspaceView {
        WorkspaceView {
            id: self.id as nat,
            name: self.name@,
            active_windows: self.active_windows as nat,
        }
    }
}

/// The workspaces of one band of numbers on one output, in listing order.
#[derive(Debug)]
pub struct WorkspaceRing {
    pub ring_id: u16,
    pub workspaces: Vec<WorkspaceInfo>,
    pub current_workspace: usize,
    pub next_id: u32,
}

impl View for WorkspaceRing {
    type V = RingView;

    open spec fn view(&self) -> RingView {
        RingView {
            ring_id: self.ring_id as nat,
            workspaces: Seq::new(self.workspaces@.len(), |i: int| self.workspaces@[i]@),
            current_workspace: self.current_workspace as nat,
            next_id: self.next_id as nat,
        }
    }
}

impl WorkspaceRing {
    /// A ring with the given id that holds nothing yet.
    pub fn new(ring_id: u16) -> (ring: WorkspaceRing)
        ensures
            ring@ == RingView::empty(ring_id as nat),
    {
        let ring = WorkspaceRing { ring_id, workspaces: Vec::new(), current_workspace: 0, next_id: 0 };
        assert(ring@.workspaces =~= Seq::empty());
        ring
    }

    /// Adds a workspace at the end of the ring. A marked workspace becomes
    /// the ring's current one.
    pub fn add(&mut self, workspace: WorkspaceInfo, marked: bool)
        ensures
            final(self)@ == old(self)@.with(workspace@, marked),
    {
        if marked {
            self.current_workspace = self.workspaces.len();
        }
        if self.next_id <= workspace.id as u32 {
            self.next_id = workspace.id as u32 + 1;
        }
        self.workspaces.push(workspace);
        assert(self@.workspaces =~= old(self)@.workspaces.push(workspace@));
    }
}

/// One display, with the rings of the workspaces listed on it.
#[derive(Debug)]
pub struct Output {
    pub name: String,
    pub workspace_rings: Vec<WorkspaceRing>,
    pub current_workspace_ring: u16,
}

impl View for Output {
    type V = OutputView;

    open spec fn view(&self) -> OutputView {
        OutputView {
            workspace_rings: table(self.ring_ids(), self.ring_views()),
            current_workspace_ring: self.current_workspace_ring as nat,
        }
    }
}

impl Output {
    /// The ids of the rings, in the order in which they are kept.
    pub open spec fn ring_ids(self) -> Seq<nat> {
        Seq::new(self.workspace_rings@.len(), |i: int| self.workspace_rings@[i].ring_id as nat)
    }

    /// The rings, in the order in which they are kept.
    pub open spec fn ring_views(self) -> Seq<RingView> {
        Seq::new(self.workspace_rings@.len(), |i: int| self.workspace_rings@[i]@)
    }

    /// No ring id occurs twice.
    pub open spec fn distinct(self) -> bool {
        self.ring_ids().no_duplicates()
    }

    /// The ring kept at a position is the one that the view files under its id.
    pub proof fn lemma_ring_at(self, i: int)
        requires
            self.distinct(),
            0 <= i < self.workspace_rings@.len(),
        ensures
            self@.workspace_rings.contains_key(self.workspace_rings@[i].ring_id as nat),
            self@.workspace_rings[self.workspace_rings@[i].ring_id as nat]
                == self.workspace_rings@[i]@,
    {
        lemma_table_entry(self.ring_ids(), self.ring_views(), i);
    }

    /// An output with the given name on which nothing was listed yet.
    pub fn new(name: String) -> (output: Output)
        ensures
            output.name == name,
            output.distinct(),
            output@ == OutputView::empty(),
    {
        let output = Output { name, workspace_rings: Vec::new(), current_workspace_ring: 0 };
        assert(output@.workspace_rings =~= Map::empty());
        output
    }

    /// The position of the ring with the given id.
    pub fn find_ring(&self, ring_id: u16) -> (found: Option<usize>)
        ensures
            match found {
                Some(i) => i < self.workspace_rings@.len() && self.workspace_rings@[i as int].ring_id
                    == ring_id,
                None => !self@.workspace_rings.contains_key(ring_id as nat),
            },
    {
        let mut i: usize = 0;
        while i < self.workspace_rings.len()
            invariant
                i <= self.workspace_rings@.len(),
                forall|j: int| 0 <= j < i ==> self.workspace_rings@[j].ring_id != ring_id,
            decreases self.workspace_rings@.len() - i,
        {
            if self.workspace_rings[i].ring_id == ring_id {
                return Some(i);
            }
            i += 1;
        }
        proof {
            if self.ring_ids().contains(ring_id as nat) {
                let j = self.ring_ids().index_of(ring_id as nat);
                assert(self.workspace_rings@[j].ring_id == ring_id);
            }
        }
        None
    }

    /// Lists one more workspace on this output: it joins the ring of its
    /// band, which is created if need be. A focused workspace makes that ring
    /// the output's current one.
    pub fn record(&mut self, workspace: WorkspaceInfo, marked: bool, focused: bool)
        requires
            old(self).distinct(),
        ensures
            final(self).distinct(),
            final(self).name == old(self).name,
            final(self)@ == old(self)@.with(workspace@, marked, focused),
    {
        let ring_id: u16 = workspace.id / 100;
        let ghost before = *self;
        let ghost added = workspace@;
        match self.find_ring(ring_id) {
            Some(i) => {
                proof {
                    before.lemma_ring_at(i as int);
                }
                self.workspace_rings[i].add(workspace, marked);
                proof {
                    assert(self.ring_ids() =~= before.ring_ids());
                    assert(self.ring_views() =~= before.ring_views().update(
                        i as int,
                        before.workspace_rings@[i as int]@.with(added, marked),
                    ));
                    lemma_table_update(
                        before.ring_ids(),
                        before.ring_views(),
                        i as int,
                        before.workspace_rings@[i as int]@.with(added, marked),
                    );
                }
            },
            None => {
                let mut ring = WorkspaceRing::new(ring_id);
                ring.add(workspace, marked);
                self.workspace_rings.push(ring);
                proof {
                    assert(self.ring_ids() =~= before.ring_ids().push(ring_id as nat));
                    assert(self.ring_views() =~= before.ring_views().push(
                        RingView::empty(ring_id as nat).with(added, marked),
                    ));
                    lemma_table_push(
                        before.ring_ids(),
                        before.ring_views(),
                        ring_id as nat,
                        RingView::empty(ring_id as nat).with(added, marked),
                    );
                }
            },
        }
        if focused {
            self.current_workspace_ring = ring_id;
        }
    }
}

/// The whole topology at one moment, and where the focus is.
#[derive(Debug)]
pub struct ProgramState {
    pub outputs: Vec<Output>,
    pub current_output: String,
    pub next_ring_id: u32,
}

impl View for ProgramState {
    type V = StateView;

    open spec fn view(&self) -> StateView {
        StateView {
            outputs: table(self.output_names(), self.output_views()),
            current_output: self.current_output@,
            next_ring_id: self.next_ring_id as nat,
        }
    }
}

impl ProgramState {
    /// The names of the outputs, in the order in which they are kept.
    pub open spec fn output_names(self) -> Seq<Seq<char>> {
        Seq::new(self.outputs@.len(), |i: int| self.outputs@[i].name@)
    }

    /// The outputs, in the order in which they are kept.
    pub open spec fn output_views(self) -> Seq<OutputView> {
        Seq::new(self.outputs@.len(), |i: int| self.outputs@[i]@)
    }

    /// No output name occurs twice, and on no output a ring id.
    pub open spec fn distinct(self) -> bool {
        &&& self.output_names().no_duplicates()
        &&& forall|i: int| 0 <= i < self.outputs@.len() ==> (#[trigger] self.outputs@[i]).distinct()
    }

    /// The state is a faithful, well-formed picture of a topology.
    pub open spec fn wf(self) -> bool {
        self.distinct() && self@.wf()
    }

    /// The output kept at a position is the one that the view files under its name.
    pub proof fn lemma_output_at(self, i: int)
        requires
            self.distinct(),
            0 <= i < self.outputs@.len(),
        ensures
            self@.outputs.contains_key(self.outputs@[i].name@),
            self@.outputs[self.outputs@[i].name@] == self.outputs@[i]@,
    {
        lemma_table_entry(self.output_names(), self.output_views(), i);
    }

    /// The state before anything was listed.
    pub fn new() -> (state: ProgramState)
        ensures
            state.wf(),
            state@ == StateView::empty(),
    {
        let state = ProgramState { outputs: Vec::new(), current_output: String::new(), next_ring_id: 0 };
        assert(state@.outputs =~= Map::empty());
        state
    }

    /// The position of the output with the given name.
    pub fn find_output(&self, name: &String) -> (found: Option<usize>)
        ensures
            match found {
                Some(i) => i < self.outputs@.len() && self.outputs@[i as int].name@ == name@,
                None => !self@.outputs.contains_key(name@),
            },
    {
        let mut i: usize = 0;
        while i < self.outputs.len()
            invariant
                i <= self.outputs@.len(),
                forall|j: int| 0 <= j < i ==> self.outputs@[j].name@ != name@,
            decreases self.outputs@.len() - i,
        {
            if self.outputs[i].name == *name {
                return Some(i);
            }
            i += 1;
        }
        proof {
            if self.output_names().contains(name@) {
                let j = self.output_names().index_of(name@);
                assert(self.outputs@[j].name@ == name@);
            }
        }
        None
    }

    /// Lists one more workspace on the named output, which is created if
    /// need be. A focused workspace moves the focus to its output and ring.
    pub fn record(&mut self, output: &String, workspace: WorkspaceInfo, marked: bool, focused: bool)
        requires
            old(self).wf(),
        ensures
            final(self).wf(),
            final(self)@ == old(self)@.with(output@, workspace@, marked, focused),
    {
        let ring_id: u16 = workspace.id / 100;
        let ghost before = *self;
        let ghost added = workspace@;
        match self.find_output(output) {
            Some(i) => {
                proof {
                    before.lemma_output_at(i as int);
                }
                self.outputs[i].record(workspace, marked, focused);
                proof {
                    assert(self.output_names() =~= before.output_names());
                    assert(self.output_views() =~= before.output_views().update(
                        i as int,
                        before.outputs@[i as int]@.with(added, marked, focused),
                    ));
                    lemma_table_update(
                        before.output_names(),
                        before.output_views(),
                        i as int,
                        before.outputs@[i as int]@.with(added, marked, focused),
                    );
                }
            },
            None => {
                let mut fresh = Output::new(output.clone());
                fresh.record(workspace, marked, focused);
                self.outputs.push(fresh);
                proof {
                    assert(self.output_names() =~= before.output_names().push(output@));
                    assert(self.output_views() =~= before.output_views().push(
                        OutputView::empty().with(added, marked, focused),
                    ));
                    lemma_table_push(
                        before.output_names(),
                        before.output_views(),
                        output@,
                        OutputView::empty().with(added, marked, focused),
                    );
                }
            },
        }
        if self.next_ring_id <= ring_id as u32 {
            self.next_ring_id = ring_id as u32 + 1;
        }
        if focused {
            self.current_output = output.clone();
        }
        proof {
            lemma_state_with_wf(before@, output@, added, marked, focused);
        }
    }
}

} // verus!
