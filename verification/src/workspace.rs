//! One workspace: an ordered collection of clients in two independent
//! orderings.  The stack is the visual z-order and focus order — its last
//! element is the focused, topmost client.  The tasklist is the user-facing
//! task-switch order, holding the same clients by identity.  Both orders are
//! set-equal at all times.

use vstd::prelude::*;

use crate::client::Client;
use crate::client::ClientView;

verus! {

/// One of the nine fixed workspaces.
pub struct Workspace {
    /// Z-order, bottom-most first; the last element is focused.
    pub stack: Vec<Client>,
    /// Task-switch order over the same clients, by id.
    pub tasklist: Vec<u32>,
}

/// The mathematical value of a [`Workspace`].
pub struct WorkspaceView {
    pub stack: Seq<ClientView>,
    pub tasklist: Seq<u32>,
}

impl View for Workspace {
    type V = WorkspaceView;

    open spec fn view(&self) -> WorkspaceView {
        WorkspaceView {
            stack: Seq::new(self.stack@.len(), |i: int| self.stack@[i]@),
            tasklist: self.tasklist@,
        }
    }
}

/// Some client in the stack has the given id.
pub open spec fn stack_has_id(stack: Seq<ClientView>, id: u32) -> bool {
    exists|i: int| 0 <= i < stack.len() && (#[trigger] stack[i]).id == id
}

/// No two clients in the stack share an id.
pub open spec fn stack_ids_distinct(stack: Seq<ClientView>) -> bool {
    forall|i: int, j: int|
        0 <= i < j < stack.len() ==> (#[trigger] stack[i]).id != (#[trigger] stack[j]).id
}

/// The index of the client with the given id; meaningful when ids are
/// distinct and the id is present.
pub open spec fn stack_index_of_id(stack: Seq<ClientView>, id: u32) -> int {
    choose|i: int| 0 <= i < stack.len() && (#[trigger] stack[i]).id == id
}

/// The index of the given id in the tasklist; meaningful when the tasklist
/// has no duplicates and the id is present.
pub open spec fn tasklist_index_of(tasklist: Seq<u32>, id: u32) -> int {
    choose|i: int| 0 <= i < tasklist.len() && tasklist[i] == id
}

/// The same client, marked dirty.
pub open spec fn marked_dirty(c: ClientView) -> ClientView {
    ClientView { need_redraw: true, ..c }
}

impl WorkspaceView {
    /// The two-order invariant: both orders hold the same client identities,
    /// without duplicates, and every client's geometry is well-formed.
    pub open spec fn wf(self) -> bool {
        &&& stack_ids_distinct(self.stack)
        &&& self.tasklist.no_duplicates()
        &&& self.stack.len() == self.tasklist.len()
        &&& forall|id: u32|
            #![trigger self.tasklist.contains(id)]
            #![trigger stack_has_id(self.stack, id)]
            self.tasklist.contains(id) <==> stack_has_id(self.stack, id)
        &&& forall|i: int| 0 <= i < self.stack.len() ==> (#[trigger] self.stack[i]).wf()
    }

    /// The focused client's id: always the last stack element, if any.
    pub open spec fn focused(self) -> Option<u32> {
        if self.stack.len() > 0 {
            Some(self.stack.last().id)
        } else {
            None
        }
    }

    /// The tasklist after a new client is inserted: right after the
    /// previously focused client's tasklist position, or appended when the
    /// workspace was empty.
    pub open spec fn tasklist_after_insert(self, id: u32) -> Seq<u32> {
        if self.stack.len() == 0 {
            self.tasklist.push(id)
        } else {
            self.tasklist.insert(tasklist_index_of(self.tasklist, self.stack.last().id) + 1, id)
        }
    }

    /// The stack after the client at `idx` is raised to the top: it leaves
    /// its slot marked dirty, and the client it uncovered is marked dirty
    /// too.
    pub open spec fn raised_stack(self, idx: int) -> Seq<ClientView> {
        let rest = self.stack.remove(idx);
        rest.update(rest.len() - 1, marked_dirty(rest.last())).push(marked_dirty(self.stack[idx]))
    }
}

proof fn lemma_insert_id(t: Seq<u32>, k: int, x: u32)
    requires
        0 <= k <= t.len(),
        t.no_duplicates(),
        !t.contains(x),
    ensures
        t.insert(k, x).no_duplicates(),
        forall|y: u32| #[trigger] t.insert(k, x).contains(y) <==> t.contains(y) || y == x,
{
    let s = t.insert(k, x);
    t.insert_ensures(k, x);
    assert forall|y: u32| #[trigger] s.contains(y) <==> t.contains(y) || y == x by {
        if s.contains(y) {
            let i = choose|i: int| 0 <= i < s.len() && s[i] == y;
            if i < k {
                assert(t[i] == y);
            } else if i > k {
                assert(t[i - 1] == y);
            }
        }
        if t.contains(y) {
            let i = choose|i: int| 0 <= i < t.len() && t[i] == y;
            if i < k {
                assert(s[i] == y);
            } else {
                assert(s[i + 1] == y);
            }
        }
        if y == x {
            assert(s[k] == y);
        }
    }
    assert forall|i: int, j: int| 0 <= i < j < s.len() implies s[i] != s[j] by {
        if i < k && j < k {
            assert(s[i] == t[i] && s[j] == t[j]);
        } else if i < k && j == k {
            assert(s[i] == t[i] && s[j] == x && t.contains(t[i]));
        } else if i < k && j > k {
            assert(s[i] == t[i] && s[j] == t[j - 1]);
        } else if i == k {
            assert(s[i] == x && s[j] == t[j - 1] && t.contains(t[j - 1]));
        } else {
            assert(s[i] == t[i - 1] && s[j] == t[j - 1]);
        }
    }
}

pub proof fn lemma_remove_id(t: Seq<u32>, k: int)
    requires
        0 <= k < t.len(),
        t.no_duplicates(),
    ensures
        t.remove(k).no_duplicates(),
        forall|y: u32| #[trigger] t.remove(k).contains(y) <==> t.contains(y) && y != t[k],
{
    let s = t.remove(k);
    t.remove_ensures(k);
    assert forall|y: u32| #[trigger] s.contains(y) <==> t.contains(y) && y != t[k] by {
        if s.contains(y) {
            let i = choose|i: int| 0 <= i < s.len() && s[i] == y;
            if i < k {
                assert(t[i] == y);
            } else {
                assert(t[i + 1] == y);
            }
        }
        if t.contains(y) && y != t[k] {
            let i = choose|i: int| 0 <= i < t.len() && t[i] == y;
            if i < k {
                assert(s[i] == y);
            } else {
                assert(s[i - 1] == y);
            }
        }
    }
    assert forall|i: int, j: int| 0 <= i < j < s.len() implies s[i] != s[j] by {
        if j < k {
            assert(s[i] == t[i] && s[j] == t[j]);
        } else if i < k && j >= k {
            assert(s[i] == t[i] && s[j] == t[j + 1]);
        } else {
            assert(s[i] == t[i + 1] && s[j] == t[j + 1]);
        }
    }
}

proof fn lemma_swap_id(t: Seq<u32>, i: int, j: int)
    requires
        0 <= i < t.len(),
        0 <= j < t.len(),
        t.no_duplicates(),
    ensures
        t.update(i, t[j]).update(j, t[i]).no_duplicates(),
        forall|y: u32| #[trigger]
            t.update(i, t[j]).update(j, t[i]).contains(y) <==> t.contains(y),
        t.update(i, t[j]).update(j, t[i]).len() == t.len(),
{
    let s = t.update(i, t[j]).update(j, t[i]);
    assert forall|y: u32| #[trigger] s.contains(y) <==> t.contains(y) by {
        if s.contains(y) {
            let k = choose|k: int| 0 <= k < s.len() && s[k] == y;
            if k == j {
                assert(t[i] == y);
            } else if k == i {
                assert(t[j] == y);
            } else {
                assert(t[k] == y);
            }
        }
        if t.contains(y) {
            let k = choose|k: int| 0 <= k < t.len() && t[k] == y;
            if k == i {
                assert(s[j] == y);
            } else if k == j && i != j {
                assert(s[i] == y);
            } else {
                assert(s[k] == y);
            }
        }
    }
}

/// Two stacks of equal length whose clients carry the same ids slot by slot
/// hold the same id set, and distinctness carries over.
pub proof fn lemma_stack_same_ids(s1: Seq<ClientView>, s2: Seq<ClientView>)
    requires
        s1.len() == s2.len(),
        forall|i: int| 0 <= i < s1.len() ==> (#[trigger] s2[i]).id == s1[i].id,
    ensures
        stack_ids_distinct(s1) ==> stack_ids_distinct(s2),
        forall|y: u32| #[trigger] stack_has_id(s2, y) <==> stack_has_id(s1, y),
{
    assert forall|y: u32| #[trigger] stack_has_id(s2, y) <==> stack_has_id(s1, y) by {
        if stack_has_id(s2, y) {
            let i = choose|i: int| 0 <= i < s2.len() && s2[i].id == y;
            assert(s1[i].id == y);
        }
        if stack_has_id(s1, y) {
            let i = choose|i: int| 0 <= i < s1.len() && s1[i].id == y;
            assert(s2[i].id == y);
        }
    }
}

impl Workspace {
    /// The stack, bottom-most first.
    pub fn stack(&self) -> (r: &Vec<Client>)
        ensures
            crate::client::client_views(r@) == self@.stack,
    {
        proof {
            assert(crate::client::client_views(self.stack@) =~= self@.stack);
        }
        &self.stack
    }

    /// The tasklist, as ids.
    pub fn tasklist(&self) -> (r: &Vec<u32>)
        ensures
            r@ == self@.tasklist,
    {
        &self.tasklist
    }

    /// An empty workspace.
    pub fn new() -> (w: Workspace)
        ensures
            w@.wf(),
            w@.stack.len() == 0,
            w@.tasklist.len() == 0,
    {
        Workspace { stack: Vec::new(), tasklist: Vec::new() }
    }

    /// The first stack index holding the client with the given id.
    pub fn find_stack_index_by_id(&self, id: u32) -> (r: Option<usize>)
        ensures
            match r {
                Some(i) => i < self@.stack.len() && self@.stack[i as int].id == id && forall|j: int|
                    0 <= j < i ==> (#[trigger] self@.stack[j]).id != id,
                None => !stack_has_id(self@.stack, id),
            },
    {
        let mut i: usize = 0;

        while i < self.stack.len()
            invariant
                i <= self@.stack.len(),
                self@.stack.len() == self.stack@.len(),
                forall|j: int| 0 <= j < i ==> (#[trigger] self@.stack[j]).id != id,
            decreases self@.stack.len() - i,
        {
            if self.stack[i].id == id {
                return Some(i);
            }
            i = i + 1;
        }

        None
    }

    /// The first stack index of the client whose content or container window
    /// is the given window.
    pub fn find_stack_index_by_window(&self, window: u32) -> (r: Option<usize>)
        ensures
            match r {
                Some(i) => i < self@.stack.len() && (self@.stack[i as int].id == window
                    || self@.stack[i as int].container_id == window) && forall|j: int|
                    0 <= j < i ==> (#[trigger] self@.stack[j]).id != window
                        && self@.stack[j].container_id != window,
                None => forall|j: int|
                    0 <= j < self@.stack.len() ==> (#[trigger] self@.stack[j]).id != window
                        && self@.stack[j].container_id != window,
            },
    {
        let mut i: usize = 0;

        while i < self.stack.len()
            invariant
                i <= self@.stack.len(),
                self@.stack.len() == self.stack@.len(),
                forall|j: int|
                    0 <= j < i ==> (#[trigger] self@.stack[j]).id != window
                        && self@.stack[j].container_id != window,
            decreases self@.stack.len() - i,
        {
            if self.stack[i].id == window || self.stack[i].container_id == window {
                return Some(i);
            }
            i = i + 1;
        }

        None
    }

    /// The first tasklist index holding the given id.
    pub fn find_tasklist_index(&self, id: u32) -> (r: Option<usize>)
        ensures
            match r {
                Some(i) => i < self@.tasklist.len() && self@.tasklist[i as int] == id && forall|
                    j: int,
                |
                    0 <= j < i ==> self@.tasklist[j] != id,
                None => !self@.tasklist.contains(id),
            },
    {
        let mut i: usize = 0;

        while i < self.tasklist.len()
            invariant
                i <= self@.tasklist.len(),
                forall|j: int| 0 <= j < i ==> self@.tasklist[j] != id,
            decreases self@.tasklist.len() - i,
        {
            if self.tasklist[i] == id {
                return Some(i);
            }
            i = i + 1;
        }

        None
    }

    /// Insert a newly managed client: it is pushed onto the stack (becoming
    /// focused, the previous top marked dirty) and enters the tasklist right
    /// after the previously focused client, or at the end of an empty
    /// workspace.
    pub fn insert_client(&mut self, client: Client)
        requires
            old(self)@.wf(),
            client@.wf(),
            !stack_has_id(old(self)@.stack, client@.id),
        ensures
            final(self)@.wf(),
            final(self)@.stack == (if old(self)@.stack.len() > 0 {
                old(self)@.stack.update(
                    old(self)@.stack.len() - 1,
                    marked_dirty(old(self)@.stack.last()),
                )
            } else {
                old(self)@.stack
            }).push(client@),
            final(self)@.tasklist == old(self)@.tasklist_after_insert(client@.id),
    {
        let ghost oldview = self@;
        let ghost cv = client@;
        let id = client.id;

        if self.stack.len() == 0 {
            self.tasklist.push(id);
            self.stack.push(client);

            proof {
                assert(self@.stack =~= oldview.stack.push(cv));
                assert(oldview.tasklist.len() == 0);
                lemma_insert_id(oldview.tasklist, oldview.tasklist.len() as int, id);
                assert(oldview.tasklist.insert(oldview.tasklist.len() as int, id)
                    =~= oldview.tasklist.push(id));
                assert forall|y: u32| #[trigger]
                    self@.tasklist.contains(y) <==> stack_has_id(self@.stack, y) by {
                    if self@.tasklist.contains(y) {
                        assert(!stack_has_id(oldview.stack, y));
                        assert(!oldview.tasklist.contains(y));
                        assert(y == id);
                        assert(self@.stack[0].id == y);
                    }
                    if stack_has_id(self@.stack, y) {
                        let i = choose|i: int|
                            0 <= i < self@.stack.len() && self@.stack[i].id == y;
                        assert(i == 0 && y == id);
                        assert(self@.tasklist[0] == y);
                    }
                }
            }
            return ;
        }

        let last = self.stack.len() - 1;
        let top_id = self.stack[last].id;

        proof {
            assert(oldview.stack[last as int].id == top_id);
            assert(stack_has_id(oldview.stack, top_id));
            assert(oldview.tasklist.contains(top_id));
        }

        let t = self.find_tasklist_index(top_id);
        let ti = match t {
            Some(ti) => ti,
            None => {
                proof {
                    assert(false);
                }
                0
            },
        };

        let top = &mut self.stack[last];
        top.notify();

        self.tasklist.insert(ti + 1, id);
        self.stack.push(client);

        proof {
            let dirtied = oldview.stack.update(
                oldview.stack.len() - 1,
                marked_dirty(oldview.stack.last()),
            );
            assert(self@.stack =~= dirtied.push(cv));
            assert(ti == tasklist_index_of(oldview.tasklist, top_id)) by {
                let w = tasklist_index_of(oldview.tasklist, top_id);
                assert(oldview.tasklist[w] == top_id);
            }
            assert(!oldview.tasklist.contains(id));
            lemma_insert_id(oldview.tasklist, ti + 1, id);
            assert(self@.tasklist == oldview.tasklist_after_insert(id));

            assert(stack_ids_distinct(self@.stack)) by {
                assert(forall|i: int|
                    0 <= i < dirtied.len() ==> (#[trigger] dirtied[i]).id
                        == oldview.stack[i].id);
            }
            assert forall|y: u32| #[trigger]
                self@.tasklist.contains(y) <==> stack_has_id(self@.stack, y) by {
                if self@.tasklist.contains(y) {
                    if y == id {
                        assert(self@.stack[self@.stack.len() - 1].id == y);
                    } else {
                        assert(oldview.tasklist.contains(y));
                        assert(stack_has_id(oldview.stack, y));
                        let i = choose|i: int|
                            0 <= i < oldview.stack.len() && oldview.stack[i].id == y;
                        assert(self@.stack[i].id == y);
                    }
                }
                if stack_has_id(self@.stack, y) {
                    let i = choose|i: int| 0 <= i < self@.stack.len() && self@.stack[i].id == y;
                    if i == self@.stack.len() - 1 {
                        assert(y == id);
                    } else {
                        assert(oldview.stack[i].id == y);
                        assert(stack_has_id(oldview.stack, y));
                    }
                }
            }
        }
    }

    /// Remove the client at the given stack index from both orders and hand
    /// it back.
    pub fn remove_client(&mut self, stack_index: usize) -> (c: Client)
        requires
            old(self)@.wf(),
            stack_index < old(self)@.stack.len(),
        ensures
            final(self)@.wf(),
            c@ == old(self)@.stack[stack_index as int],
            final(self)@.stack == old(self)@.stack.remove(stack_index as int),
            final(self)@.tasklist == old(self)@.tasklist.remove(
                tasklist_index_of(old(self)@.tasklist, c@.id),
            ),
    {
        let ghost oldview = self@;
        let c = self.stack.remove(stack_index);
        let ghost cv = c@;

        proof {
            assert(cv == oldview.stack[stack_index as int]);
            assert(stack_has_id(oldview.stack, cv.id));
            assert(oldview.tasklist.contains(cv.id));
            assert(self@.stack =~= oldview.stack.remove(stack_index as int));
        }

        let t = self.find_tasklist_index(c.id);
        let ti = match t {
            Some(ti) => ti,
            None => {
                proof {
                    assert(false);
                }
                0
            },
        };

        self.tasklist.remove(ti);

        proof {
            assert(ti == tasklist_index_of(oldview.tasklist, cv.id)) by {
                let w = tasklist_index_of(oldview.tasklist, cv.id);
                assert(oldview.tasklist[w] == cv.id);
            }
            lemma_remove_id(oldview.tasklist, ti as int);

            let news = self@.stack;
            oldview.stack.remove_ensures(stack_index as int);
            assert(stack_ids_distinct(news)) by {
                assert forall|i: int, j: int| 0 <= i < j < news.len() implies (#[trigger] news[i]).id
                    != (#[trigger] news[j]).id by {
                    if j < stack_index {
                        assert(news[i] == oldview.stack[i] && news[j] == oldview.stack[j]);
                    } else if i < stack_index {
                        assert(news[i] == oldview.stack[i] && news[j] == oldview.stack[j + 1]);
                    } else {
                        assert(news[i] == oldview.stack[i + 1] && news[j] == oldview.stack[j + 1]);
                    }
                }
            }
            assert forall|y: u32| #[trigger]
                self@.tasklist.contains(y) <==> stack_has_id(news, y) by {
                if self@.tasklist.contains(y) {
                    assert(self@.tasklist == oldview.tasklist.remove(ti as int));
                    assert(oldview.tasklist.remove(ti as int).contains(y));
                    assert(oldview.tasklist.contains(y) && y != cv.id);
                    assert(stack_has_id(oldview.stack, y));
                    let i = choose|i: int|
                        0 <= i < oldview.stack.len() && oldview.stack[i].id == y;
                    if i < stack_index {
                        assert(news[i].id == y);
                        assert(stack_has_id(news, y));
                    } else {
                        assert(i != stack_index);
                        assert(news[i - 1].id == y);
                        assert(stack_has_id(news, y));
                    }
                }
                if stack_has_id(news, y) {
                    let i = choose|i: int| 0 <= i < news.len() && news[i].id == y;
                    if i < stack_index {
                        assert(oldview.stack[i].id == y);
                    } else {
                        assert(oldview.stack[i + 1].id == y);
                    }
                    assert(stack_has_id(oldview.stack, y));
                    assert(y != cv.id) by {
                        if i < stack_index {
                            assert(oldview.stack[i].id != oldview.stack[stack_index as int].id);
                        } else {
                            assert(oldview.stack[i + 1].id
                                != oldview.stack[stack_index as int].id);
                        }
                    }
                }
            }
        }

        c
    }

    /// Push a client onto both orders, at the end of each: how a client
    /// arrives in the destination workspace of a cross-workspace move.
    pub fn push_client(&mut self, client: Client)
        requires
            old(self)@.wf(),
            client@.wf(),
            !stack_has_id(old(self)@.stack, client@.id),
        ensures
            final(self)@.wf(),
            final(self)@.stack == old(self)@.stack.push(client@),
            final(self)@.tasklist == old(self)@.tasklist.push(client@.id),
    {
        let ghost oldview = self@;
        let ghost cv = client@;
        let id = client.id;

        self.tasklist.push(id);
        self.stack.push(client);

        proof {
            assert(self@.stack =~= oldview.stack.push(cv));
            lemma_insert_id(oldview.tasklist, oldview.tasklist.len() as int, id);
            assert(oldview.tasklist.insert(oldview.tasklist.len() as int, id)
                =~= oldview.tasklist.push(id));
            assert forall|y: u32| #[trigger]
                self@.tasklist.contains(y) <==> stack_has_id(self@.stack, y) by {
                if self@.tasklist.contains(y) {
                    if y == id {
                        assert(self@.stack[self@.stack.len() - 1].id == y);
                    } else {
                        assert(stack_has_id(oldview.stack, y));
                        let i = choose|i: int|
                            0 <= i < oldview.stack.len() && oldview.stack[i].id == y;
                        assert(self@.stack[i].id == y);
                    }
                }
                if stack_has_id(self@.stack, y) {
                    let i = choose|i: int| 0 <= i < self@.stack.len() && self@.stack[i].id == y;
                    if i == self@.stack.len() - 1 {
                        assert(y == id);
                    } else {
                        assert(oldview.stack[i].id == y);
                        assert(stack_has_id(oldview.stack, y));
                    }
                }
            }
        }
    }

    /// Move the client at `stack_index` to the top of the stack, marking it
    /// and the client it leaves uncovered dirty.  The tasklist order does
    /// not change.
    pub fn raise_to_top(&mut self, stack_index: usize)
        requires
            old(self)@.wf(),
            stack_index + 1 < old(self)@.stack.len(),
        ensures
            final(self)@.wf(),
            final(self)@.stack == old(self)@.raised_stack(stack_index as int),
            final(self)@.tasklist == old(self)@.tasklist,
    {
        let ghost oldview = self@;
        let mut client = self.stack.remove(stack_index);
        client.notify();

        let last = self.stack.len() - 1;
        let below = &mut self.stack[last];
        below.notify();

        self.stack.push(client);

        proof {
            let rest = oldview.stack.remove(stack_index as int);
            oldview.stack.remove_ensures(stack_index as int);
            assert(self@.stack =~= oldview.raised_stack(stack_index as int));
            let news = self@.stack;
            assert(forall|i: int|
                0 <= i < rest.len() ==> (#[trigger] news[i]).id == rest[i].id);
            assert(news[news.len() - 1].id == oldview.stack[stack_index as int].id);

            assert(stack_ids_distinct(news)) by {
                assert forall|i: int, j: int| 0 <= i < j < news.len() implies (#[trigger] news[i]).id
                    != (#[trigger] news[j]).id by {
                    let get = |k: int|
                        if k < news.len() - 1 {
                            if k < stack_index {
                                k
                            } else {
                                k + 1
                            }
                        } else {
                            stack_index as int
                        };
                    assert(news[i].id == oldview.stack[get(i)].id);
                    assert(news[j].id == oldview.stack[get(j)].id);
                }
            }
            assert forall|y: u32| #[trigger]
                self@.tasklist.contains(y) <==> stack_has_id(news, y) by {
                if self@.tasklist.contains(y) {
                    assert(stack_has_id(oldview.stack, y));
                    let i = choose|i: int|
                        0 <= i < oldview.stack.len() && oldview.stack[i].id == y;
                    if i == stack_index {
                        assert(news[news.len() - 1].id == y);
                    } else if i < stack_index {
                        assert(news[i].id == y);
                    } else {
                        assert(news[i - 1].id == y);
                    }
                }
                if stack_has_id(news, y) {
                    let i = choose|i: int| 0 <= i < news.len() && news[i].id == y;
                    if i == news.len() - 1 {
                        assert(oldview.stack[stack_index as int].id == y);
                    } else if i < stack_index {
                        assert(oldview.stack[i].id == y);
                    } else {
                        assert(oldview.stack[i + 1].id == y);
                    }
                    assert(stack_has_id(oldview.stack, y));
                }
            }
        }
    }

    /// Mark the client at the given stack index dirty.
    pub fn mark_dirty_at(&mut self, i: usize)
        requires
            i < old(self)@.stack.len(),
        ensures
            final(self)@.stack == old(self)@.stack.update(
                i as int,
                marked_dirty(old(self)@.stack[i as int]),
            ),
            final(self)@.tasklist == old(self)@.tasklist,
    {
        let c = &mut self.stack[i];
        c.notify();

        proof {
            assert(self@.stack =~= old(self)@.stack.update(
                i as int,
                marked_dirty(old(self)@.stack[i as int]),
            ));
        }
    }

    /// Flip the maximize mode of the client at the given stack index,
    /// appending the commands that apply the new layout policy.
    pub fn toggle_maximized_at(
        &mut self,
        i: usize,
        screen: crate::config::ScreenInfo,
        cmds: &mut Vec<crate::command::Command>,
    )
        requires
            old(self)@.wf(),
            i < old(self)@.stack.len(),
            screen.wf(),
        ensures
            final(self)@.wf(),
            final(self)@.stack == old(self)@.stack.update(
                i as int,
                old(self)@.stack[i as int].with_maximized(!old(self)@.stack[i as int].maximized),
            ),
            final(self)@.tasklist == old(self)@.tasklist,
            final(cmds)@ == old(cmds)@ + crate::client::set_maximized_cmds(
                old(self)@.stack[i as int].with_maximized(!old(self)@.stack[i as int].maximized),
                screen,
            ),
    {
        let ghost oldview = self@;
        let m = self.stack[i].maximized;

        proof {
            assert(self.stack@[i as int]@ == oldview.stack[i as int]);
            assert(oldview.stack[i as int].wf());
        }

        let c = &mut self.stack[i];
        c.set_maximized(!m, screen, cmds);

        proof {
            let nc = oldview.stack[i as int].with_maximized(!oldview.stack[i as int].maximized);
            assert(self@.stack =~= oldview.stack.update(i as int, nc));
            lemma_stack_same_ids(oldview.stack, self@.stack);
            assert(nc.wf());
        }
    }

    /// Move the client at the given stack index to a new position,
    /// appending the container reposition commands.
    pub fn set_position_at(
        &mut self,
        i: usize,
        x: i16,
        y: i16,
        cmds: &mut Vec<crate::command::Command>,
    )
        requires
            old(self)@.wf(),
            i < old(self)@.stack.len(),
            x >= crate::config::MIN_CLIENT_X,
            y >= crate::config::MIN_CLIENT_Y,
        ensures
            final(self)@.wf(),
            final(self)@.stack == old(self)@.stack.update(
                i as int,
                (ClientView { x, y, ..old(self)@.stack[i as int] }),
            ),
            final(self)@.tasklist == old(self)@.tasklist,
            final(cmds)@ == old(cmds)@ + crate::client::set_x_cmds(
                (ClientView { x, ..old(self)@.stack[i as int] }),
            ) + crate::client::set_y_cmds((ClientView { x, y, ..old(self)@.stack[i as int] })),
    {
        let ghost oldview = self@;

        proof {
            assert(self.stack@[i as int]@ == oldview.stack[i as int]);
            assert(oldview.stack[i as int].wf());
        }

        let c = &mut self.stack[i];
        c.set_x(x, cmds);
        c.set_y(y, cmds);

        proof {
            let nc = ClientView { x, y, ..oldview.stack[i as int] };
            assert(self@.stack =~= oldview.stack.update(i as int, nc));
            lemma_stack_same_ids(oldview.stack, self@.stack);
        }
    }

    /// Resize the client at the given stack index, appending the resize
    /// commands its layout policy calls for.
    pub fn set_size_at(
        &mut self,
        i: usize,
        width: u16,
        height: u16,
        screen: crate::config::ScreenInfo,
        cmds: &mut Vec<crate::command::Command>,
    )
        requires
            old(self)@.wf(),
            i < old(self)@.stack.len(),
            screen.wf(),
            width <= crate::config::MAX_CLIENT_WIDTH,
            height <= crate::config::MAX_CLIENT_HEIGHT,
        ensures
            final(self)@.wf(),
            final(self)@.stack == old(self)@.stack.update(
                i as int,
                (ClientView {
                    width,
                    height,
                    need_redraw: old(self)@.stack[i as int].need_redraw || !old(
                        self,
                    )@.stack[i as int].maximized,
                    ..old(self)@.stack[i as int]
                }),
            ),
            final(self)@.tasklist == old(self)@.tasklist,
            final(cmds)@ == old(cmds)@ + crate::client::set_size_cmds(
                (ClientView {
                    width,
                    height,
                    need_redraw: old(self)@.stack[i as int].need_redraw || !old(
                        self,
                    )@.stack[i as int].maximized,
                    ..old(self)@.stack[i as int]
                }),
                screen,
            ),
    {
        let ghost oldview = self@;

        proof {
            assert(self.stack@[i as int]@ == oldview.stack[i as int]);
            assert(oldview.stack[i as int].wf());
        }

        let c = &mut self.stack[i];
        c.set_size(width, height, screen, cmds);

        proof {
            let nc = ClientView {
                width,
                height,
                need_redraw: oldview.stack[i as int].need_redraw
                    || !oldview.stack[i as int].maximized,
                ..oldview.stack[i as int]
            };
            assert(self@.stack =~= oldview.stack.update(i as int, nc));
            lemma_stack_same_ids(oldview.stack, self@.stack);
        }
    }

    /// Record a new class for the client at the given stack index.
    pub fn set_class_at(&mut self, i: usize, class: Option<String>)
        requires
            old(self)@.wf(),
            i < old(self)@.stack.len(),
        ensures
            final(self)@.wf(),
            final(self)@.stack == old(self)@.stack.update(
                i as int,
                (ClientView {
                    class: crate::client::opt_string_view(class),
                    ..old(self)@.stack[i as int]
                }),
            ),
            final(self)@.tasklist == old(self)@.tasklist,
    {
        let ghost oldview = self@;
        let c = &mut self.stack[i];
        c.set_class(class);

        proof {
            assert(self@.stack =~= oldview.stack.update(
                i as int,
                (ClientView {
                    class: crate::client::opt_string_view(class),
                    ..oldview.stack[i as int]
                }),
            ));
            lemma_stack_same_ids(oldview.stack, self@.stack);
        }
    }

    /// Record a new title for the client at the given stack index, marking
    /// it dirty.
    pub fn set_title_at(&mut self, i: usize, title: Option<String>)
        requires
            old(self)@.wf(),
            i < old(self)@.stack.len(),
        ensures
            final(self)@.wf(),
            final(self)@.stack == old(self)@.stack.update(
                i as int,
                (ClientView {
                    title: crate::client::opt_string_view(title),
                    need_redraw: true,
                    ..old(self)@.stack[i as int]
                }),
            ),
            final(self)@.tasklist == old(self)@.tasklist,
    {
        let ghost oldview = self@;
        let c = &mut self.stack[i];
        c.set_title(title);

        proof {
            assert(self@.stack =~= oldview.stack.update(
                i as int,
                (ClientView {
                    title: crate::client::opt_string_view(title),
                    need_redraw: true,
                    ..oldview.stack[i as int]
                }),
            ));
            lemma_stack_same_ids(oldview.stack, self@.stack);
        }
    }

    /// Record a new icon for the client at the given stack index, marking
    /// it dirty.
    pub fn set_icon_at(&mut self, i: usize, icon: Option<crate::icon::Icon>)
        requires
            old(self)@.wf(),
            i < old(self)@.stack.len(),
        ensures
            final(self)@.wf(),
            final(self)@.stack == old(self)@.stack.update(
                i as int,
                (ClientView {
                    icon: crate::client::opt_icon_view(icon),
                    need_redraw: true,
                    ..old(self)@.stack[i as int]
                }),
            ),
            final(self)@.tasklist == old(self)@.tasklist,
    {
        let ghost oldview = self@;
        let c = &mut self.stack[i];
        c.set_icon(icon);

        proof {
            assert(self@.stack =~= oldview.stack.update(
                i as int,
                (ClientView {
                    icon: crate::client::opt_icon_view(icon),
                    need_redraw: true,
                    ..oldview.stack[i as int]
                }),
            ));
            lemma_stack_same_ids(oldview.stack, self@.stack);
        }
    }

    /// Hand out a repaint request for the client at the given stack index
    /// if its decoration is dirty, clearing the flag.
    pub fn request_redraw_at(&mut self, i: usize, is_active: bool) -> (r: Option<
        crate::client::RedrawRequest,
    >)
        requires
            old(self)@.wf(),
            i < old(self)@.stack.len(),
        ensures
            final(self)@.wf(),
            final(self)@.tasklist == old(self)@.tasklist,
            ({
                let c = old(self)@.stack[i as int];
                if c.need_redraw && !c.maximized {
                    final(self)@.stack == old(self)@.stack.update(
                        i as int,
                        (ClientView { need_redraw: false, ..c }),
                    ) && r == Some(
                        crate::client::RedrawRequest { container_id: c.container_id, is_active },
                    )
                } else {
                    final(self)@.stack == old(self)@.stack && r is None
                }
            }),
    {
        let ghost oldview = self@;
        let c = &mut self.stack[i];
        let r = c.request_redraw(is_active);

        proof {
            let c0 = oldview.stack[i as int];
            if c0.need_redraw && !c0.maximized {
                assert(self@.stack =~= oldview.stack.update(
                    i as int,
                    (ClientView { need_redraw: false, ..c0 }),
                ));
            } else {
                assert(self@.stack =~= oldview.stack);
            }
            lemma_stack_same_ids(oldview.stack, self@.stack);
        }

        r
    }

    /// Swap two tasklist entries; the stack does not change.
    pub fn swap_tasklist_entries(&mut self, i: usize, j: usize)
        requires
            old(self)@.wf(),
            i < old(self)@.tasklist.len(),
            j < old(self)@.tasklist.len(),
        ensures
            final(self)@.wf(),
            final(self)@.stack == old(self)@.stack,
            final(self)@.tasklist == old(self)@.tasklist.update(
                i as int,
                old(self)@.tasklist[j as int],
            ).update(j as int, old(self)@.tasklist[i as int]),
    {
        let ghost oldview = self@;
        let a = self.tasklist[i];
        let b = self.tasklist[j];
        self.tasklist.set(i, b);
        self.tasklist.set(j, a);

        proof {
            lemma_swap_id(oldview.tasklist, i as int, j as int);
            assert(self@.stack =~= oldview.stack);
        }
    }
}

} // verus!
