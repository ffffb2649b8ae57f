//! The navigation engine: from a state and a command to the command texts
//! to send to the window manager.
//!
//! Left and right step through the current ring in listing order. Up and
//! down step through the rings of the current output in ascending order of
//! ring id, and land on the workspace that the ring reached last held
//! current. Past the left end and above the lowest ring a fresh workspace
//! is named. Past the right end and below the highest ring the walk wraps
//! around if the workspace it leaves would stay behind empty, and names a
//! fresh workspace otherwise.

use vstd::prelude::*;
use crate::command::{Command, Direction};
use crate::model::{OutputView, RingView, StateView, band_width};
use crate::state::{Output, ProgramState};
use crate::text::{carry_command, carry_text, focus_command, focus_text};

verus! {

impl OutputView {
    /// Whether no ring of the output has a smaller id than the given ring.
    pub open spec fn is_lowest(self, ring_id: nat) -> bool {
        self.workspace_rings.contains_key(ring_id) && forall|k: nat| #[trigger]
            self.workspace_rings.contains_key(k) ==> ring_id <= k
    }

    /// Whether no ring of the output has a larger id than the given ring.
    pub open spec fn is_highest(self, ring_id: nat) -> bool {
        self.workspace_rings.contains_key(ring_id) && forall|k: nat| #[trigger]
            self.workspace_rings.contains_key(k) ==> k <= ring_id
    }

    /// Whether `ring_id` is the ring that follows `base` in ascending order.
    pub open spec fn is_next_above(self, base: nat, ring_id: nat) -> bool {
        &&& self.workspace_rings.contains_key(ring_id)
        &&& base < ring_id
        &&& forall|k: nat| #[trigger] self.workspace_rings.contains_key(k) && base < k ==> ring_id <= k
    }

    /// Whether `ring_id` is the ring that precedes `base` in ascending order.
    pub open spec fn is_next_below(self, base: nat, ring_id: nat) -> bool {
        &&& self.workspace_rings.contains_key(ring_id)
        &&& ring_id < base
        &&& forall|k: nat| #[trigger] self.workspace_rings.contains_key(k) && k < base ==> k <= ring_id
    }

    /// The smallest ring id of the output.
    pub open spec fn lowest(self) -> nat {
        choose|k: nat| self.is_lowest(k)
    }

    /// The ring id that follows `base` in ascending order.
    pub open spec fn next_above(self, base: nat) -> nat {
        choose|k: nat| self.is_next_above(base, k)
    }

    /// The ring id that precedes `base` in ascending order.
    pub open spec fn next_below(self, base: nat) -> nat {
        choose|k: nat| self.is_next_below(base, k)
    }

    /// The smallest ring id is the only one that nothing lies below.
    pub proof fn lemma_lowest(self, ring_id: nat)
        requires
            self.is_lowest(ring_id),
        ensures
            self.lowest() == ring_id,
    {
        let k = self.lowest();
        assert(self.workspace_rings.contains_key(k));
    }

    /// Only one ring id follows another.
    pub proof fn lemma_next_above(self, base: nat, ring_id: nat)
        requires
            self.is_next_above(base, ring_id),
        ensures
            self.next_above(base) == ring_id,
    {
        let k = self.next_above(base);
        assert(self.workspace_rings.contains_key(k));
    }

    /// Only one ring id precedes another.
    pub proof fn lemma_next_below(self, base: nat, ring_id: nat)
        requires
            self.is_next_below(base, ring_id),
        ensures
            self.next_below(base) == ring_id,
    {
        let k = self.next_below(base);
        assert(self.workspace_rings.contains_key(k));
    }
}

/// How many windows the workspace that is left may hold and still count as
/// empty once the command is done: none when only the focus moves, one when
/// the focused window moves along.
pub open spec fn spare_windows(command: Command) -> nat {
    match command {
        Command::Switch(_) => 0,
        Command::Move(_) => 1,
    }
}

/// The direction of a command.
pub open spec fn heading(command: Command) -> Direction {
    match command {
        Command::Switch(direction) => direction,
        Command::Move(direction) => direction,
    }
}

/// The number of the workspace that a walk in the given direction reaches,
/// where a workspace with at most `spare` windows counts as empty.
pub open spec fn destination(state: StateView, direction: Direction, spare: nat) -> nat {
    let output = state.current_output_view();
    let ring = state.current_ring();
    let here = ring.current_workspace as int;
    let fresh_ring = state.next_ring_id * band_width();
    match direction {
        Direction::Left => if here == 0 {
            ring.next_id
        } else {
            ring.workspaces[here - 1].id
        },
        Direction::Right => if here + 1 == ring.workspaces.len() {
            if ring.current().active_windows <= spare {
                ring.workspaces[0].id
            } else {
                ring.next_id
            }
        } else {
            ring.workspaces[here + 1].id
        },
        Direction::Up => if output.is_lowest(output.current_workspace_ring) {
            fresh_ring
        } else {
            output.workspace_rings[output.next_below(output.current_workspace_ring)].current().id
        },
        Direction::Down => if output.is_highest(output.current_workspace_ring) {
            if ring.current().active_windows <= spare {
                output.workspace_rings[output.lowest()].current().id
            } else {
                fresh_ring
            }
        } else {
            output.workspace_rings[output.next_above(output.current_workspace_ring)].current().id
        },
    }
}

/// The number of the workspace that a command leads to.
pub open spec fn target(state: StateView, command: Command) -> nat {
    destination(state, heading(command), spare_windows(command))
}

/// The command texts that a command amounts to, in the order in which they
/// are to be sent: to switch, one text that moves the focus; to move, one
/// that carries the window to the target and one that lets the focus follow.
pub open spec fn commands(state: StateView, command: Command) -> Seq<Seq<char>> {
    let id = target(state, command);
    match command {
        Command::Switch(_) => seq![focus_text(id)],
        Command::Move(_) => seq![carry_text(id), focus_text(id)],
    }
}

impl StateView {
    /// The state in which the current ring has its current workspace at the
    /// given position, and all else is as before.
    pub open spec fn with_current(self, position: nat) -> StateView {
        let output = self.current_output_view();
        let ring = self.current_ring();
        StateView {
            outputs: self.outputs.insert(
                self.current_output,
                OutputView {
                    workspace_rings: output.workspace_rings.insert(
                        output.current_workspace_ring,
                        RingView { current_workspace: position, ..ring },
                    ),
                    ..output
                },
            ),
            ..self
        }
    }
}

/// Away from the left end of a ring, a step to the left followed by a step
/// to the right leads back to the workspace one started from: the step left
/// reaches the workspace listed just before, and from there the step right
/// reaches the starting workspace again.
pub proof fn law_left_then_right_returns(state: StateView)
    requires
        state.wf(),
        state.focused(),
        0 < state.current_ring().current_workspace,
    ensures
        destination(state, Direction::Left, 0) == state.current_ring().workspaces[
            state.current_ring().current_workspace - 1
        ].id,
        destination(
            state.with_current((state.current_ring().current_workspace - 1) as nat),
            Direction::Right,
            0,
        ) == state.current_ring().current().id,
{
    let output = state.current_output_view();
    assert(state.has_ring(state.current_output, output.current_workspace_ring));
    assert(state.outputs.contains_key(state.current_output));
    assert(output.workspace_rings.contains_key(output.current_workspace_ring));
    assert(state.current_ring().wf());
}

/// Away from the right end of a ring, a step to the right followed by a step
/// to the left leads back to the workspace one started from.
pub proof fn law_right_then_left_returns(state: StateView)
    requires
        state.wf(),
        state.focused(),
        state.current_ring().current_workspace + 1 < state.current_ring().workspaces.len(),
    ensures
        destination(state, Direction::Right, 0) == state.current_ring().workspaces[
            state.current_ring().current_workspace as int + 1
        ].id,
        destination(
            state.with_current(state.current_ring().current_workspace + 1),
            Direction::Left,
            0,
        ) == state.current_ring().current().id,
{
    let output = state.current_output_view();
    assert(state.has_ring(state.current_output, output.current_workspace_ring));
    assert(state.outputs.contains_key(state.current_output));
    assert(output.workspace_rings.contains_key(output.current_workspace_ring));
    assert(state.current_ring().wf());
}

impl Output {
    /// The position of the ring with the smallest id.
    pub fn lowest_ring(&self) -> (found: usize)
        requires
            self.distinct(),
            self.workspace_rings@.len() > 0,
        ensures
            found < self.workspace_rings@.len(),
            self@.is_lowest(self.workspace_rings@[found as int].ring_id as nat),
    {
        let mut best: usize = 0;
        let mut i: usize = 1;
        while i < self.workspace_rings.len()
            invariant
                best < i <= self.workspace_rings@.len(),
                forall|j: int|
                    0 <= j < i ==> self.workspace_rings@[best as int].ring_id
                        <= (#[trigger] self.workspace_rings@[j]).ring_id,
            decreases self.workspace_rings@.len() - i,
        {
            if self.workspace_rings[i].ring_id < self.workspace_rings[best].ring_id {
                best = i;
            }
            i += 1;
        }
        proof {
            self.lemma_ring_at(best as int);
            assert forall|k: nat| #[trigger]
                self@.workspace_rings.contains_key(k) implies self.workspace_rings@[best as int].ring_id
                <= k by {
                let j = self.ring_ids().index_of(k);
                assert(self.workspace_rings@[j].ring_id == k);
            }
        }
        best
    }

    /// The position of the ring that follows `base` in ascending order of
    /// ring id, if any ring has a larger id than `base`.
    pub fn ring_above(&self, base: u16) -> (found: Option<usize>)
        requires
            self.distinct(),
        ensures
            match found {
                Some(i) => i < self.workspace_rings@.len() && self@.is_next_above(
                    base as nat,
                    self.workspace_rings@[i as int].ring_id as nat,
                ),
                None => forall|k: nat| #[trigger] self@.workspace_rings.contains_key(k) ==> k <= base,
            },
    {
        let mut best: Option<usize> = None;
        let mut i: usize = 0;
        while i < self.workspace_rings.len()
            invariant
                i <= self.workspace_rings@.len(),
                match best {
                    Some(b) => b < i && base < self.workspace_rings@[b as int].ring_id && forall|
                        j: int,
                    |
                        0 <= j < i && base < (#[trigger] self.workspace_rings@[j]).ring_id
                            ==> self.workspace_rings@[b as int].ring_id
                            <= self.workspace_rings@[j].ring_id,
                    None => forall|j: int|
                        0 <= j < i ==> (#[trigger] self.workspace_rings@[j]).ring_id <= base,
                },
            decreases self.workspace_rings@.len() - i,
        {
            let id: u16 = self.workspace_rings[i].ring_id;
            if base < id {
                let better: bool = match best {
                    Some(b) => id < self.workspace_rings[b].ring_id,
                    None => true,
                };
                if better {
                    best = Some(i);
                }
            }
            i += 1;
        }
        proof {
            match best {
                Some(b) => {
                    self.lemma_ring_at(b as int);
                    assert forall|k: nat| #[trigger]
                        self@.workspace_rings.contains_key(k) && base < k implies self.workspace_rings@[b as int].ring_id
                        <= k by {
                        let j = self.ring_ids().index_of(k);
                        assert(self.workspace_rings@[j].ring_id == k);
                    }
                },
                None => {
                    assert forall|k: nat| #[trigger]
                        self@.workspace_rings.contains_key(k) implies k <= base by {
                        let j = self.ring_ids().index_of(k);
                        assert(self.workspace_rings@[j].ring_id == k);
                    }
                },
            }
        }
        best
    }

    /// The position of the ring that precedes `base` in ascending order of
    /// ring id, if any ring has a smaller id than `base`.
    pub fn ring_below(&self, base: u16) -> (found: Option<usize>)
        requires
            self.distinct(),
        ensures
            match found {
                Some(i) => i < self.workspace_rings@.len() && self@.is_next_below(
                    base as nat,
                    self.workspace_rings@[i as int].ring_id as nat,
                ),
                None => forall|k: nat| #[trigger] self@.workspace_rings.contains_key(k) ==> base <= k,
            },
    {
        let mut best: Option<usize> = None;
        let mut i: usize = 0;
        while i < self.workspace_rings.len()
            invariant
                i <= self.workspace_rings@.len(),
                match best {
                    Some(b) => b < i && self.workspace_rings@[b as int].ring_id < base && forall|
                        j: int,
                    |
                        0 <= j < i && (#[trigger] self.workspace_rings@[j]).ring_id < base
                            ==> self.workspace_rings@[j].ring_id
                            <= self.workspace_rings@[b as int].ring_id,
                    None => forall|j: int|
                        0 <= j < i ==> base <= (#[trigger] self.workspace_rings@[j]).ring_id,
                },
            decreases self.workspace_rings@.len() - i,
        {
            let id: u16 = self.workspace_rings[i].ring_id;
            if id < base {
                let better: bool = match best {
                    Some(b) => self.workspace_rings[b].ring_id < id,
                    None => true,
                };
                if better {
                    best = Some(i);
                }
            }
            i += 1;
        }
        proof {
            match best {
                Some(b) => {
                    self.lemma_ring_at(b as int);
                    assert forall|k: nat| #[trigger]
                        self@.workspace_rings.contains_key(k) && k < base implies k
                        <= self.workspace_rings@[b as int].ring_id by {
                        let j = self.ring_ids().index_of(k);
                        assert(self.workspace_rings@[j].ring_id == k);
                    }
                },
                None => {
                    assert forall|k: nat| #[trigger]
                        self@.workspace_rings.contains_key(k) implies base <= k by {
                        let j = self.ring_ids().index_of(k);
                        assert(self.workspace_rings@[j].ring_id == k);
                    }
                },
            }
        }
        best
    }
}

impl ProgramState {
    /// Tells whether the focus is somewhere: whether the current output is
    /// one of the outputs and its current ring one of its rings.
    pub fn has_focus(&self) -> (focused: bool)
        requires
            self.wf(),
        ensures
            focused == self@.focused(),
    {
        match self.find_output(&self.current_output) {
            Some(o) => {
                proof {
                    self.lemma_output_at(o as int);
                }
                let output = &self.outputs[o];
                match output.find_ring(output.current_workspace_ring) {
                    Some(r) => {
                        proof {
                            output.lemma_ring_at(r as int);
                        }
                        true
                    },
                    None => false,
                }
            },
            None => false,
        }
    }

    /// The number of the workspace that a walk in the given direction
    /// reaches, where a workspace with at most `spare` windows counts as empty.
    pub fn destination(&self, direction: Direction, spare: usize) -> (id: u32)
        requires
            self.wf(),
            self@.focused(),
        ensures
            id == destination(self@, direction, spare as nat),
    {
        let o: usize = match self.find_output(&self.current_output) {
            Some(o) => o,
            None => { proof { assert(false); } 0 },
        };
        let output = &self.outputs[o];
        proof {
            self.lemma_output_at(o as int);
        }
        let r: usize = match output.find_ring(output.current_workspace_ring) {
            Some(r) => r,
            None => { proof { assert(false); } 0 },
        };
        let ring = &output.workspace_rings[r];
        proof {
            output.lemma_ring_at(r as int);
            assert(self@.outputs.contains_key(self.current_output@));
            assert(output@.wf());
            assert(output@.workspace_rings.contains_key(ring.ring_id as nat));
            assert(ring@.wf());
            assert(ring@ == self@.current_ring());
            self.lemma_next_ring_id_bound();
        }
        let here: usize = ring.current_workspace;
        assert(ring@.workspaces[here as int] == ring.workspaces@[here as int]@);
        match direction {
            Direction::Left => {
                if here == 0 {
                    ring.next_id
                } else {
                    assert(ring@.workspaces[here - 1] == ring.workspaces@[here - 1]@);
                    ring.workspaces[here - 1].id as u32
                }
            },
            Direction::Right => {
                if here == ring.workspaces.len() - 1 {
                    if ring.workspaces[here].active_windows <= spare {
                        assert(ring@.workspaces[0] == ring.workspaces@[0]@);
                        ring.workspaces[0].id as u32
                    } else {
                        ring.next_id
                    }
                } else {
                    assert(ring@.workspaces[here + 1] == ring.workspaces@[here + 1]@);
                    ring.workspaces[here + 1].id as u32
                }
            },
            Direction::Up => {
                match output.ring_below(output.current_workspace_ring) {
                    Some(b) => {
                        proof {
                            output@.lemma_next_below(
                                output.current_workspace_ring as nat,
                                output.workspace_rings@[b as int].ring_id as nat,
                            );
                        }
                        output.remembered(b)
                    },
                    None => self.next_ring_id * 100,
                }
            },
            Direction::Down => {
                match output.ring_above(output.current_workspace_ring) {
                    Some(a) => {
                        proof {
                            output@.lemma_next_above(
                                output.current_workspace_ring as nat,
                                output.workspace_rings@[a as int].ring_id as nat,
                            );
                        }
                        output.remembered(a)
                    },
                    None => {
                        if ring.workspaces[here].active_windows <= spare {
                            let first: usize = output.lowest_ring();
                            proof {
                                output@.lemma_lowest(
                                    output.workspace_rings@[first as int].ring_id as nat,
                                );
                            }
                            output.remembered(first)
                        } else {
                            self.next_ring_id * 100
                        }
                    },
                }
            },
        }
    }
}

impl Output {
    /// The number of the workspace that the ring at a position holds current.
    pub fn remembered(&self, position: usize) -> (id: u32)
        requires
            self.distinct(),
            self@.wf(),
            position < self.workspace_rings@.len(),
        ensures
            id == self@.workspace_rings[self.workspace_rings@[position as int].ring_id as nat].current().id,
    {
        proof {
            self.lemma_ring_at(position as int);
        }
        let ring = &self.workspace_rings[position];
        assert(ring@.wf());
        assert(ring@.workspaces[ring.current_workspace as int]
            == ring.workspaces@[ring.current_workspace as int]@);
        ring.workspaces[ring.current_workspace].id as u32
    }
}

impl ProgramState {
    /// A ring id is at most the hundredth part of the largest workspace
    /// number, so the next free ring id is at most one more.
    pub proof fn lemma_next_ring_id_bound(self)
        requires
            self@.wf(),
        ensures
            self@.next_ring_id <= 656,
    {
        let view = self@;
        if view.next_ring_id != 0 {
            let (name, k) = choose|name: Seq<char>, k: nat| #[trigger]
                view.has_ring(name, k) && k + 1 == view.next_ring_id;
            assert(view.outputs.contains_key(name));
            assert(view.outputs[name].workspace_rings.contains_key(k));
            let ring = view.outputs[name].workspace_rings[k];
            assert(ring.wf());
            assert(ring.workspaces[0].band() == k);
        }
    }
}

/// Moves the focus one step in the given direction.
pub fn switch(direction: Direction, state: &ProgramState) -> (texts: Vec<String>)
    requires
        state.wf(),
        state@.focused(),
    ensures
        texts.deep_view() == commands(state@, Command::Switch(direction)),
        texts@.len() == commands(state@, Command::Switch(direction)).len(),
{
    let id: u32 = state.destination(direction, 0);
    let mut texts: Vec<String> = Vec::new();
    texts.push(focus_command(id));
    assert(texts.deep_view() =~= commands(state@, Command::Switch(direction)));
    texts
}

/// Moves the focused window one step in the given direction, and the focus
/// with it.
pub fn move_window(direction: Direction, state: &ProgramState) -> (texts: Vec<String>)
    requires
        state.wf(),
        state@.focused(),
    ensures
        texts.deep_view() == commands(state@, Command::Move(direction)),
        texts@.len() == commands(state@, Command::Move(direction)).len(),
{
    let id: u32 = state.destination(direction, 1);
    let mut texts: Vec<String> = Vec::new();
    texts.push(carry_command(id));
    texts.push(focus_command(id));
    assert(texts.deep_view() =~= commands(state@, Command::Move(direction)));
    texts
}

/// Decides what to send to the window manager for a command.
pub fn decide(state: &ProgramState, command: Command) -> (texts: Vec<String>)
    requires
        state.wf(),
        state@.focused(),
    ensures
        texts.deep_view() == commands(state@, command),
        texts@.len() == commands(state@, command).len(),
{
    match command {
        Command::Switch(direction) => switch(direction, state),
        Command::Move(direction) => move_window(direction, state),
    }
}

} // verus!
