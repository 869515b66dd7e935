//! The serializable session snapshot: per workspace the stack in order with
//! each client's geometry and maximize mode, the tasklist as ids, and the
//! active workspace index.  Written before a soft restart and read back,
//! best effort, at startup.

use vstd::prelude::*;

use crate::config::MAX_CLIENT_HEIGHT;
use crate::config::MAX_CLIENT_WIDTH;
use crate::config::MIN_CLIENT_X;
use crate::config::MIN_CLIENT_Y;
use crate::config::WORKSPACE_COUNT;

verus! {

/// One client as recorded in the session snapshot.
#[derive(Clone, Copy, PartialEq, Eq, Structural, Debug)]
pub struct SavedClient {
    pub id: u32,
    pub x: i16,
    pub y: i16,
    pub width: u16,
    pub height: u16,
    pub maximized: bool,
}

/// One workspace as recorded in the session snapshot.
pub struct SavedWorkspace {
    /// Stack order, bottom-most first.
    pub stack: Vec<SavedClient>,
    /// Tasklist order, as client ids.
    pub tasklist: Vec<u32>,
}

/// The whole session snapshot.
pub struct SavedState {
    pub workspaces: Vec<SavedWorkspace>,
    pub active_workspace_index: usize,
}

/// The mathematical value of a [`SavedWorkspace`].
pub struct SavedWorkspaceView {
    pub stack: Seq<SavedClient>,
    pub tasklist: Seq<u32>,
}

/// The mathematical value of a [`SavedState`].
pub struct SavedStateView {
    pub workspaces: Seq<SavedWorkspaceView>,
    pub active_workspace_index: int,
}

impl View for SavedWorkspace {
    type V = SavedWorkspaceView;

    open spec fn view(&self) -> SavedWorkspaceView {
        SavedWorkspaceView { stack: self.stack@, tasklist: self.tasklist@ }
    }
}

impl View for SavedState {
    type V = SavedStateView;

    open spec fn view(&self) -> SavedStateView {
        SavedStateView {
            workspaces: Seq::new(self.workspaces@.len(), |i: int| self.workspaces@[i]@),
            active_workspace_index: self.active_workspace_index as int,
        }
    }
}

impl SavedClient {
    /// The recorded geometry leaves room for the decoration within the
    /// protocol's coordinate space.
    pub open spec fn wf(self) -> bool {
        &&& self.x >= MIN_CLIENT_X
        &&& self.y >= MIN_CLIENT_Y
        &&& self.width <= MAX_CLIENT_WIDTH
        &&& self.height <= MAX_CLIENT_HEIGHT
    }
}

/// Some recorded client has the given id.
pub open spec fn saved_has_id(stack: Seq<SavedClient>, id: u32) -> bool {
    exists|i: int| 0 <= i < stack.len() && (#[trigger] stack[i]).id == id
}

/// No two recorded clients share an id.
pub open spec fn saved_ids_distinct(stack: Seq<SavedClient>) -> bool {
    forall|i: int, j: int|
        0 <= i < j < stack.len() ==> (#[trigger] stack[i]).id != (#[trigger] stack[j]).id
}

impl SavedWorkspaceView {
    /// The two orders record the same ids, without duplicates, and every
    /// recorded geometry is well-formed.
    pub open spec fn consistent(self) -> bool {
        &&& saved_ids_distinct(self.stack)
        &&& self.tasklist.no_duplicates()
        &&& self.stack.len() == self.tasklist.len()
        &&& forall|id: u32|
            #![trigger self.tasklist.contains(id)]
            #![trigger saved_has_id(self.stack, id)]
            self.tasklist.contains(id) <==> saved_has_id(self.stack, id)
        &&& forall|i: int| 0 <= i < self.stack.len() ==> (#[trigger] self.stack[i]).wf()
    }
}

impl SavedStateView {
    /// Nine consistent workspaces, globally unique ids and a valid active
    /// index: what any snapshot this core wrote satisfies, and what a
    /// snapshot read from disk must pass before it is trusted.
    pub open spec fn consistent(self) -> bool {
        &&& self.workspaces.len() == WORKSPACE_COUNT
        &&& 0 <= self.active_workspace_index < WORKSPACE_COUNT
        &&& forall|w: int|
            0 <= w < self.workspaces.len() ==> (#[trigger] self.workspaces[w]).consistent()
        &&& forall|a: int, b: int, id: u32|
            0 <= a < self.workspaces.len() && 0 <= b < self.workspaces.len() && a != b
                && #[trigger] saved_has_id(self.workspaces[a].stack, id) ==> !(#[trigger]
            saved_has_id(self.workspaces[b].stack, id))
    }
}

impl SavedWorkspace {
    pub(crate) fn find_in_stack(&self, id: u32) -> (r: Option<usize>)
        ensures
            match r {
                Some(i) => i < self@.stack.len() && self@.stack[i as int].id == id,
                None => !saved_has_id(self@.stack, id),
            },
    {
        let mut i: usize = 0;

        while i < self.stack.len()
            invariant
                i <= self@.stack.len(),
                forall|j: int| 0 <= j < i ==> (#[trigger] self@.stack[j]).id != id,
            decreases self@.stack.len() - i,
        {
            if self.stack[i].id == id {
                return Some(i);
            }
            i = i + 1;
        }

        None
    }

    fn find_in_tasklist(&self, id: u32) -> (r: Option<usize>)
        ensures
            match r {
                Some(i) => i < self@.tasklist.len() && self@.tasklist[i as int] == id,
                None => !self@.tasklist.contains(id),
            },
    {
        let mut i: usize = 0;

        while i < self.tasklist.len()
            invariant
                i <= self@.tasklist.len(),
                forall|j: int| 0 <= j < i ==> self@.tasklist[j] != id,
            decreases self@.tasklist.len() - i,
        {
            if self.tasklist[i] == id {
                return Some(i);
            }
            i = i + 1;
        }

        None
    }

    fn is_consistent(&self) -> (r: bool)
        ensures
            r == self@.consistent(),
    {
        if self.stack.len() != self.tasklist.len() {
            return false;
        }

        let mut i: usize = 0;

        while i < self.stack.len()
            invariant
                i <= self@.stack.len(),
                forall|a: int, b: int|
                    0 <= a < b < self@.stack.len() && b < i ==> (#[trigger] self@.stack[a]).id
                        != (#[trigger] self@.stack[b]).id,
                forall|a: int| 0 <= a < i ==> (#[trigger] self@.stack[a]).wf(),
            decreases self@.stack.len() - i,
        {
            let c = self.stack[i];

            if !(c.x >= MIN_CLIENT_X && c.y >= MIN_CLIENT_Y && c.width <= MAX_CLIENT_WIDTH
                && c.height <= MAX_CLIENT_HEIGHT) {
                return false;
            }

            let mut j: usize = 0;

            while j < i
                invariant
                    j <= i,
                    i < self@.stack.len(),
                    forall|a: int| 0 <= a < j ==> (#[trigger] self@.stack[a]).id != self@.stack[
                        i as int
                    ].id,
                decreases i - j,
            {
                if self.stack[j].id == self.stack[i].id {
                    return false;
                }
                j = j + 1;
            }

            i = i + 1;
        }

        let mut t: usize = 0;

        while t < self.tasklist.len()
            invariant
                t <= self@.tasklist.len(),
                forall|a: int, b: int|
                    0 <= a < b < self@.tasklist.len() && b < t ==> self@.tasklist[a]
                        != self@.tasklist[b],
                forall|a: int|
                    0 <= a < t ==> saved_has_id(self@.stack, #[trigger] self@.tasklist[a]),
            decreases self@.tasklist.len() - t,
        {
            let id = self.tasklist[t];

            match self.find_in_stack(id) {
                Some(_) => {},
                None => {
                    return false;
                },
            }

            let mut j: usize = 0;

            while j < t
                invariant
                    j <= t,
                    t < self@.tasklist.len(),
                    forall|a: int| 0 <= a < j ==> self@.tasklist[a] != self@.tasklist[t as int],
                decreases t - j,
            {
                if self.tasklist[j] == self.tasklist[t] {
                    return false;
                }
                j = j + 1;
            }

            t = t + 1;
        }

        let mut s: usize = 0;

        while s < self.stack.len()
            invariant
                s <= self@.stack.len(),
                forall|a: int|
                    0 <= a < s ==> self@.tasklist.contains((#[trigger] self@.stack[a]).id),
            decreases self@.stack.len() - s,
        {
            let id = self.stack[s].id;

            match self.find_in_tasklist(id) {
                Some(_) => {},
                None => {
                    proof {
                        assert(saved_has_id(self@.stack, id)) by {
                            assert(self@.stack[s as int].id == id);
                        }
                    }
                    return false;
                },
            }

            s = s + 1;
        }

        proof {
            assert forall|id: u32|
                #![trigger self@.tasklist.contains(id)]
                #![trigger saved_has_id(self@.stack, id)]
                self@.tasklist.contains(id) <==> saved_has_id(self@.stack, id) by {
                if self@.tasklist.contains(id) {
                    let a = choose|a: int|
                        0 <= a < self@.tasklist.len() && self@.tasklist[a] == id;
                    assert(saved_has_id(self@.stack, self@.tasklist[a]));
                }
                if saved_has_id(self@.stack, id) {
                    let a = choose|a: int| 0 <= a < self@.stack.len() && self@.stack[a].id == id;
                    assert(self@.tasklist.contains(self@.stack[a].id));
                }
            }
        }

        true
    }
}

impl SavedState {
    /// Whether the snapshot passes the consistency screen: a snapshot that
    /// fails is treated as no prior session at all.
    pub fn is_consistent(&self) -> (r: bool)
        ensures
            r == self@.consistent(),
    {
        if self.workspaces.len() != WORKSPACE_COUNT {
            return false;
        }

        if self.active_workspace_index >= WORKSPACE_COUNT {
            return false;
        }

        let mut w: usize = 0;

        while w < self.workspaces.len()
            invariant
                w <= self@.workspaces.len(),
                self@.workspaces.len() == self.workspaces@.len(),
                forall|a: int| 0 <= a < w ==> (#[trigger] self@.workspaces[a]).consistent(),
            decreases self@.workspaces.len() - w,
        {
            if !self.workspaces[w].is_consistent() {
                proof {
                    assert(self@.workspaces[w as int] == self.workspaces@[w as int]@);
                }
                return false;
            }
            w = w + 1;
        }

        let mut a: usize = 0;

        while a < self.workspaces.len()
            invariant
                a <= self@.workspaces.len(),
                self@.workspaces.len() == self.workspaces@.len(),
                self@.workspaces.len() == WORKSPACE_COUNT,
                forall|p: int| 0 <= p < self@.workspaces.len() ==> (#[trigger] self@.workspaces[
                    p
                ]).consistent(),
                forall|p: int, q: int, id: u32|
                    0 <= p < a && 0 <= q < self@.workspaces.len() && p != q && #[trigger]
                    saved_has_id(self@.workspaces[p].stack, id) ==> !(#[trigger] saved_has_id(
                        self@.workspaces[q].stack,
                        id,
                    )),
            decreases self@.workspaces.len() - a,
        {
            let mut i: usize = 0;

            while i < self.workspaces[a].stack.len()
                invariant
                    a < self@.workspaces.len(),
                    self@.workspaces.len() == self.workspaces@.len(),
                    self@.workspaces.len() == WORKSPACE_COUNT,
                    i <= self@.workspaces[a as int].stack.len(),
                    forall|k: int, q: int|
                        0 <= k < i && 0 <= q < self@.workspaces.len() && q != a ==> !saved_has_id(
                            (#[trigger] self@.workspaces[q]).stack,
                            (#[trigger] self@.workspaces[a as int].stack[k]).id,
                        ),
                decreases self@.workspaces[a as int].stack.len() - i,
            {
                let id = self.workspaces[a].stack[i].id;
                let mut q: usize = 0;

                while q < self.workspaces.len()
                    invariant
                        a < self@.workspaces.len(),
                        self@.workspaces.len() == self.workspaces@.len(),
                        i < self@.workspaces[a as int].stack.len(),
                        id == self@.workspaces[a as int].stack[i as int].id,
                        q <= self@.workspaces.len(),
                        forall|p: int|
                            0 <= p < q && p != a ==> !saved_has_id(
                                (#[trigger] self@.workspaces[p]).stack,
                                id,
                            ),
                    decreases self@.workspaces.len() - q,
                {
                    if q != a {
                        match self.workspaces[q].find_in_stack(id) {
                            Some(k) => {
                                proof {
                                    assert(self@.workspaces[q as int] == self.workspaces@[
                                        q as int
                                    ]@);
                                    assert(self@.workspaces[a as int] == self.workspaces@[
                                        a as int
                                    ]@);
                                    assert(saved_has_id(self@.workspaces[q as int].stack, id));
                                    assert(saved_has_id(self@.workspaces[a as int].stack, id))
                                        by {
                                        assert(self@.workspaces[a as int].stack[i as int].id
                                            == id);
                                    }
                                }
                                return false;
                            },
                            None => {},
                        }
                    }
                    q = q + 1;
                }

                i = i + 1;
            }

            proof {
                assert forall|q: int, id: u32|
                    0 <= q < self@.workspaces.len() && q != a && saved_has_id(
                        self@.workspaces[a as int].stack,
                        id,
                    ) implies !(#[trigger] saved_has_id(self@.workspaces[q].stack, id)) by {
                    let k = choose|k: int|
                        0 <= k < self@.workspaces[a as int].stack.len()
                            && self@.workspaces[a as int].stack[k].id == id;
                    assert(!saved_has_id(
                        self@.workspaces[q].stack,
                        self@.workspaces[a as int].stack[k].id,
                    ));
                }
            }

            a = a + 1;
        }

        true
    }
}

} // verus!
