//! Startup reconciliation: the windows found on the display server are
//! matched against the previous session's snapshot.  Recorded clients whose
//! windows still exist are re-adopted with their recorded geometry, each
//! tasklist is rebuilt from its recorded order, and leftover windows join
//! the active workspace with live geometry.

use vstd::prelude::*;

use crate::client::opt_icon_view;
use crate::client::opt_string_view;
use crate::client::Client;
use crate::client::ClientView;
use crate::command::Command;
use crate::config::ScreenInfo;
use crate::config::MAX_CLIENT_HEIGHT;
use crate::config::MAX_CLIENT_WIDTH;
use crate::config::MIN_CLIENT_X;
use crate::config::MIN_CLIENT_Y;
use crate::config::WORKSPACE_COUNT;
use crate::icon::Icon;
use crate::icon::IconView;
use crate::session::SavedClient;
use crate::session::SavedState;
use crate::session::SavedWorkspace;
use crate::wm::Wm;
use crate::wm::WmView;
use crate::workspace::stack_has_id;
use crate::workspace::stack_ids_distinct;
use crate::workspace::Workspace;
use crate::workspace::WorkspaceView;

verus! {

/// One top-level window found on the display server at startup, with its
/// queried attributes and metadata, and a container id the host generated
/// for it.
pub struct ExistingWindow {
    pub id: u32,
    /// A fresh window id for the container, should this window be adopted.
    pub container_id: u32,
    /// The window is not reported unmapped.
    pub viewable: bool,
    /// Override-redirect windows are never managed.
    pub override_redirect: bool,
    pub x: i16,
    pub y: i16,
    pub width: u16,
    pub height: u16,
    pub class: Option<String>,
    pub title: Option<String>,
    pub icon: Option<Icon>,
}

/// The mathematical value of an [`ExistingWindow`].
pub struct ExistingWindowView {
    pub id: u32,
    pub container_id: u32,
    pub viewable: bool,
    pub override_redirect: bool,
    pub x: i16,
    pub y: i16,
    pub width: u16,
    pub height: u16,
    pub class: Option<Seq<char>>,
    pub title: Option<Seq<char>>,
    pub icon: Option<IconView>,
}

impl View for ExistingWindow {
    type V = ExistingWindowView;

    open spec fn view(&self) -> ExistingWindowView {
        ExistingWindowView {
            id: self.id,
            container_id: self.container_id,
            viewable: self.viewable,
            override_redirect: self.override_redirect,
            x: self.x,
            y: self.y,
            width: self.width,
            height: self.height,
            class: opt_string_view(self.class),
            title: opt_string_view(self.title),
            icon: opt_icon_view(self.icon),
        }
    }
}

/// The mathematical values of the discovered windows.
pub open spec fn existing_views(existing: Seq<ExistingWindow>) -> Seq<ExistingWindowView> {
    Seq::new(existing.len(), |i: int| existing[i]@)
}

/// The window may be managed: it is viewable and not override-redirect.
pub open spec fn eligible(e: ExistingWindowView) -> bool {
    e.viewable && !e.override_redirect
}

/// Some discovered window has the given id.
pub open spec fn ex_has_id(existing: Seq<ExistingWindowView>, id: u32) -> bool {
    exists|i: int| 0 <= i < existing.len() && (#[trigger] existing[i]).id == id
}

/// The index of the discovered window with the given id.
pub open spec fn ex_index_of(existing: Seq<ExistingWindowView>, id: u32) -> int {
    choose|i: int| 0 <= i < existing.len() && (#[trigger] existing[i]).id == id
}

/// The recorded geometry of a discovered window stays within the space the
/// decoration needs.
pub open spec fn existing_geometry_ok(existing: Seq<ExistingWindowView>) -> bool {
    forall|i: int|
        0 <= i < existing.len() ==> (#[trigger] existing[i]).x >= MIN_CLIENT_X && existing[i].y
            >= MIN_CLIENT_Y && existing[i].width <= MAX_CLIENT_WIDTH && existing[i].height
            <= MAX_CLIENT_HEIGHT
}

/// No two discovered windows share an id.
pub open spec fn existing_ids_distinct(existing: Seq<ExistingWindowView>) -> bool {
    forall|i: int, j: int|
        0 <= i < j < existing.len() ==> (#[trigger] existing[i]).id != (#[trigger] existing[
            j
        ]).id
}

/// Some workspace of the snapshot records the given id.
pub open spec fn saved_anywhere(s: crate::session::SavedStateView, id: u32) -> bool {
    exists|w: int|
        0 <= w < s.workspaces.len() && crate::session::saved_has_id(
            (#[trigger] s.workspaces[w]).stack,
            id,
        )
}

/// The empty snapshot a missing or rejected session file stands for.
pub open spec fn empty_saved() -> crate::session::SavedStateView {
    crate::session::SavedStateView {
        workspaces: Seq::new(
            WORKSPACE_COUNT as nat,
            |i: int| crate::session::SavedWorkspaceView {
                stack: Seq::empty(),
                tasklist: Seq::empty(),
            },
        ),
        active_workspace_index: 0,
    }
}

/// The snapshot startup works from: the one read from disk, or the empty
/// one.
pub open spec fn normalized_saved(saved: Option<crate::session::SavedStateView>)
    -> crate::session::SavedStateView {
    match saved {
        Some(s) => s,
        None => empty_saved(),
    }
}

/// The client a re-adopted snapshot entry becomes: recorded geometry and
/// maximize mode, live metadata.
pub open spec fn adopted_client(sc: SavedClient, e: ExistingWindowView) -> ClientView {
    ClientView {
        id: sc.id,
        container_id: e.container_id,
        x: sc.x,
        y: sc.y,
        width: sc.width,
        height: sc.height,
        maximized: sc.maximized,
        need_redraw: true,
        class: e.class,
        title: e.title,
        icon: e.icon,
    }
}

/// The client a freshly discovered window becomes: live geometry, with the
/// same maximize heuristic a map request uses — a window filling exactly
/// the screen width is taken as wanting to be maximized.
pub open spec fn discovered_client(e: ExistingWindowView, screen: ScreenInfo) -> ClientView {
    ClientView {
        id: e.id,
        container_id: e.container_id,
        x: e.x,
        y: e.y,
        width: e.width,
        height: e.height,
        maximized: e.width == screen.width,
        need_redraw: true,
        class: e.class,
        title: e.title,
        icon: e.icon,
    }
}

/// The stack a snapshot workspace re-adopts, scanning its recorded stack
/// from `i`: entries whose window still exists and may be managed, in
/// order.
pub open spec fn adopted_from(
    sstack: Seq<SavedClient>,
    existing: Seq<ExistingWindowView>,
    i: int,
) -> Seq<ClientView>
    decreases sstack.len() - i,
{
    if i < 0 || i >= sstack.len() {
        Seq::empty()
    } else {
        let rest = adopted_from(sstack, existing, i + 1);
        if ex_has_id(existing, sstack[i].id) && eligible(
            existing[ex_index_of(existing, sstack[i].id)],
        ) {
            seq![adopted_client(sstack[i], existing[ex_index_of(existing, sstack[i].id)])] + rest
        } else {
            rest
        }
    }
}

/// The tasklist rebuilt from a recorded tasklist, scanning from `i`: ids
/// found in the re-adopted stack, in recorded order.
pub open spec fn kept_from(tl: Seq<u32>, stack: Seq<ClientView>, i: int) -> Seq<u32>
    decreases tl.len() - i,
{
    if i < 0 || i >= tl.len() {
        Seq::empty()
    } else {
        let rest = kept_from(tl, stack, i + 1);
        if stack_has_id(stack, tl[i]) {
            seq![tl[i]] + rest
        } else {
            rest
        }
    }
}

/// The commands re-adopting a snapshot workspace issues: each adopted
/// client's setup, and on the active workspace its container shown.
pub open spec fn adopt_cmds_from(
    sstack: Seq<SavedClient>,
    existing: Seq<ExistingWindowView>,
    screen: ScreenInfo,
    map_containers: bool,
    i: int,
) -> Seq<Command>
    decreases sstack.len() - i,
{
    if i < 0 || i >= sstack.len() {
        Seq::empty()
    } else {
        let rest = adopt_cmds_from(sstack, existing, screen, map_containers, i + 1);
        if ex_has_id(existing, sstack[i].id) && eligible(
            existing[ex_index_of(existing, sstack[i].id)],
        ) {
            let c = adopted_client(sstack[i], existing[ex_index_of(existing, sstack[i].id)]);
            crate::client::init_cmds(c, screen) + (if map_containers {
                seq![Command::MapWindow(c.container_id)]
            } else {
                Seq::<Command>::empty()
            }) + rest
        } else {
            rest
        }
    }
}

/// The leftover clients: discovered windows no snapshot workspace records,
/// eligible ones only, in discovery order.
pub open spec fn leftover_from(
    existing: Seq<ExistingWindowView>,
    s: crate::session::SavedStateView,
    screen: ScreenInfo,
    k: int,
) -> Seq<ClientView>
    decreases existing.len() - k,
{
    if k < 0 || k >= existing.len() {
        Seq::empty()
    } else {
        let rest = leftover_from(existing, s, screen, k + 1);
        if !saved_anywhere(s, existing[k].id) && eligible(existing[k]) {
            seq![discovered_client(existing[k], screen)] + rest
        } else {
            rest
        }
    }
}

/// The commands adopting the leftover windows issues: each client's setup
/// and its container shown.
pub open spec fn leftover_cmds_from(
    existing: Seq<ExistingWindowView>,
    s: crate::session::SavedStateView,
    screen: ScreenInfo,
    k: int,
) -> Seq<Command>
    decreases existing.len() - k,
{
    if k < 0 || k >= existing.len() {
        Seq::empty()
    } else {
        let rest = leftover_cmds_from(existing, s, screen, k + 1);
        if !saved_anywhere(s, existing[k].id) && eligible(existing[k]) {
            let c = discovered_client(existing[k], screen);
            crate::client::init_cmds(c, screen) + seq![Command::MapWindow(c.container_id)] + rest
        } else {
            rest
        }
    }
}

/// The ids of a stack, in order.
pub open spec fn ids_of(stack: Seq<ClientView>) -> Seq<u32> {
    Seq::new(stack.len(), |i: int| stack[i].id)
}

/// The workspace a snapshot workspace reconciles to.
pub open spec fn reconciled_workspace(
    sw: crate::session::SavedWorkspaceView,
    existing: Seq<ExistingWindowView>,
) -> WorkspaceView {
    WorkspaceView {
        stack: adopted_from(sw.stack, existing, 0),
        tasklist: kept_from(sw.tasklist, adopted_from(sw.stack, existing, 0), 0),
    }
}

/// The state startup reconciliation produces: each workspace re-adopted
/// from the snapshot, the leftover windows appended to the active
/// workspace, no drag in progress.
pub open spec fn startup_state(
    screen: ScreenInfo,
    saved: Option<crate::session::SavedStateView>,
    existing: Seq<ExistingWindowView>,
) -> WmView {
    let s = normalized_saved(saved);
    let base = Seq::new(
        WORKSPACE_COUNT as nat,
        |w: int| reconciled_workspace(s.workspaces[w], existing),
    );
    let act = s.active_workspace_index;
    let left = leftover_from(existing, s, screen, 0);
    WmView {
        workspaces: base.update(
            act,
            (WorkspaceView {
                stack: base[act].stack + left,
                tasklist: base[act].tasklist + ids_of(left),
            }),
        ),
        active_workspace_index: act,
        drag_state: None,
        screen,
    }
}

/// The commands startup reconciliation issues, ending with focus on the
/// active workspace's topmost client.
pub open spec fn startup_ws_cmds(
    s: crate::session::SavedStateView,
    existing: Seq<ExistingWindowView>,
    screen: ScreenInfo,
    w: int,
) -> Seq<Command>
    decreases WORKSPACE_COUNT - w,
{
    if w < 0 || w >= WORKSPACE_COUNT {
        Seq::empty()
    } else {
        adopt_cmds_from(
            s.workspaces[w].stack,
            existing,
            screen,
            w == s.active_workspace_index,
            0,
        ) + startup_ws_cmds(s, existing, screen, w + 1)
    }
}

/// All startup commands.
pub open spec fn startup_cmds(
    screen: ScreenInfo,
    saved: Option<crate::session::SavedStateView>,
    existing: Seq<ExistingWindowView>,
) -> Seq<Command> {
    let s = normalized_saved(saved);
    let v = startup_state(screen, saved, existing);
    startup_ws_cmds(s, existing, screen, 0) + leftover_cmds_from(existing, s, screen, 0) + seq![
        Command::SetFocus(v.active().focused()),
    ]
}

proof fn lemma_adopted_props(
    sstack: Seq<SavedClient>,
    existing: Seq<ExistingWindowView>,
    i: int,
)
    requires
        crate::session::saved_ids_distinct(sstack),
        forall|j: int| 0 <= j < sstack.len() ==> (#[trigger] sstack[j]).wf(),
        existing_geometry_ok(existing),
        0 <= i,
    ensures
        stack_ids_distinct(adopted_from(sstack, existing, i)),
        forall|y: u32| #[trigger]
            stack_has_id(adopted_from(sstack, existing, i), y) <==> (exists|j: int|
                i <= j < sstack.len() && (#[trigger] sstack[j]).id == y) && ex_has_id(existing, y)
                && eligible(existing[ex_index_of(existing, y)]),
        forall|k: int|
            0 <= k < adopted_from(sstack, existing, i).len() ==> (#[trigger] adopted_from(
                sstack,
                existing,
                i,
            )[k]).wf(),
    decreases sstack.len() - i,
{
    let cur = adopted_from(sstack, existing, i);
    if i >= sstack.len() {
        assert forall|y: u32| #[trigger] stack_has_id(cur, y) implies false by {}
    } else {
        lemma_adopted_props(sstack, existing, i + 1);
        let rest = adopted_from(sstack, existing, i + 1);
        let taken = ex_has_id(existing, sstack[i].id) && eligible(
            existing[ex_index_of(existing, sstack[i].id)],
        );
        if taken {
            let c = adopted_client(sstack[i], existing[ex_index_of(existing, sstack[i].id)]);
            assert(cur == seq![c] + rest);
            assert(cur[0] == c);
            assert(forall|k: int| 0 <= k < rest.len() ==> cur[k + 1] == rest[k]);
            assert(!stack_has_id(rest, sstack[i].id)) by {
                if stack_has_id(rest, sstack[i].id) {
                    let j = choose|j: int|
                        i + 1 <= j < sstack.len() && (#[trigger] sstack[j]).id == sstack[i].id;
                    assert(sstack[i].id != sstack[j].id);
                }
            }
            assert forall|a: int, b: int| 0 <= a < b < cur.len() implies (#[trigger] cur[a]).id
                != (#[trigger] cur[b]).id by {
                if a == 0 {
                    assert(cur[b] == rest[b - 1]);
                    assert(stack_has_id(rest, rest[b - 1].id)) by {
                        assert(rest[b - 1].id == rest[b - 1].id);
                    }
                } else {
                    assert(cur[a] == rest[a - 1] && cur[b] == rest[b - 1]);
                }
            }
            assert forall|y: u32| #[trigger] stack_has_id(cur, y) implies ((exists|j: int|
                i <= j < sstack.len() && (#[trigger] sstack[j]).id == y) && ex_has_id(existing, y)
                && eligible(existing[ex_index_of(existing, y)])) by {
                let k = choose|k: int| 0 <= k < cur.len() && cur[k].id == y;
                if k == 0 {
                    assert(sstack[i].id == y);
                } else {
                    assert(rest[k - 1].id == y);
                    assert(stack_has_id(rest, y));
                }
            }
            assert forall|y: u32|
                ((exists|j: int| i <= j < sstack.len() && (#[trigger] sstack[j]).id == y)
                    && ex_has_id(existing, y) && eligible(
                    existing[ex_index_of(existing, y)],
                )) implies #[trigger] stack_has_id(cur, y) by {
                let j = choose|j: int| i <= j < sstack.len() && (#[trigger] sstack[j]).id == y;
                if j == i {
                    assert(cur[0].id == y);
                } else {
                    assert(stack_has_id(rest, y));
                    let k = choose|k: int| 0 <= k < rest.len() && rest[k].id == y;
                    assert(cur[k + 1].id == y);
                }
            }
            assert forall|k: int| 0 <= k < cur.len() implies (#[trigger] cur[k]).wf() by {
                if k == 0 {
                    assert(sstack[i].wf());
                } else {
                    assert(cur[k] == rest[k - 1]);
                }
            }
        } else {
            assert(cur == rest);
            assert forall|y: u32| #[trigger] stack_has_id(cur, y) implies ((exists|j: int|
                i <= j < sstack.len() && (#[trigger] sstack[j]).id == y) && ex_has_id(existing, y)
                && eligible(existing[ex_index_of(existing, y)])) by {
                assert(stack_has_id(rest, y));
            }
            assert forall|y: u32|
                ((exists|j: int| i <= j < sstack.len() && (#[trigger] sstack[j]).id == y)
                    && ex_has_id(existing, y) && eligible(
                    existing[ex_index_of(existing, y)],
                )) implies #[trigger] stack_has_id(cur, y) by {
                let j = choose|j: int| i <= j < sstack.len() && (#[trigger] sstack[j]).id == y;
                if j == i {
                    assert(ex_index_of(existing, sstack[i].id) == ex_index_of(existing, y));
                    assert(false);
                } else {
                    assert(stack_has_id(rest, y));
                }
            }
        }
    }
}

proof fn lemma_kept_props(tl: Seq<u32>, stack: Seq<ClientView>, i: int)
    requires
        tl.no_duplicates(),
        0 <= i,
    ensures
        kept_from(tl, stack, i).no_duplicates(),
        forall|y: u32| #[trigger]
            kept_from(tl, stack, i).contains(y) <==> (exists|j: int|
                i <= j < tl.len() && tl[j] == y) && stack_has_id(stack, y),
    decreases tl.len() - i,
{
    let cur = kept_from(tl, stack, i);
    if i >= tl.len() {
        assert forall|y: u32| #[trigger] cur.contains(y) implies false by {}
    } else {
        lemma_kept_props(tl, stack, i + 1);
        let rest = kept_from(tl, stack, i + 1);
        if stack_has_id(stack, tl[i]) {
            assert(cur == seq![tl[i]] + rest);
            assert(cur[0] == tl[i]);
            assert(forall|k: int| 0 <= k < rest.len() ==> cur[k + 1] == rest[k]);
            assert(!rest.contains(tl[i])) by {
                if rest.contains(tl[i]) {
                    let j = choose|j: int| i + 1 <= j < tl.len() && tl[j] == tl[i];
                    assert(tl[i] != tl[j]);
                }
            }
            assert forall|a: int, b: int| 0 <= a < b < cur.len() implies cur[a] != cur[b] by {
                if a == 0 {
                    assert(cur[b] == rest[b - 1]);
                    assert(rest.contains(rest[b - 1]));
                } else {
                    assert(cur[a] == rest[a - 1] && cur[b] == rest[b - 1]);
                }
            }
            assert forall|y: u32| #[trigger] cur.contains(y) implies ((exists|j: int|
                i <= j < tl.len() && tl[j] == y) && stack_has_id(stack, y)) by {
                let k = choose|k: int| 0 <= k < cur.len() && cur[k] == y;
                if k == 0 {
                } else {
                    assert(rest[k - 1] == y);
                    assert(rest.contains(y));
                }
            }
            assert forall|y: u32|
                ((exists|j: int| i <= j < tl.len() && tl[j] == y) && stack_has_id(
                    stack,
                    y,
                )) implies #[trigger] cur.contains(y) by {
                let j = choose|j: int| i <= j < tl.len() && tl[j] == y;
                if j == i {
                    assert(cur[0] == y);
                } else {
                    assert(rest.contains(y));
                    let k = choose|k: int| 0 <= k < rest.len() && rest[k] == y;
                    assert(cur[k + 1] == y);
                }
            }
        } else {
            assert(cur == rest);
            assert forall|y: u32|
                ((exists|j: int| i <= j < tl.len() && tl[j] == y) && stack_has_id(
                    stack,
                    y,
                )) implies #[trigger] cur.contains(y) by {
                let j = choose|j: int| i <= j < tl.len() && tl[j] == y;
                if j == i {
                    assert(false);
                } else {
                    assert(rest.contains(y));
                }
            }
        }
    }
}

proof fn lemma_same_ids_len(stack: Seq<ClientView>, tl: Seq<u32>)
    requires
        stack_ids_distinct(stack),
        tl.no_duplicates(),
        forall|y: u32|
            #![trigger tl.contains(y)]
            #![trigger stack_has_id(stack, y)]
            tl.contains(y) <==> stack_has_id(stack, y),
    ensures
        stack.len() == tl.len(),
    decreases stack.len(),
{
    if stack.len() == 0 {
        if tl.len() > 0 {
            assert(tl.contains(tl[0]));
            assert(stack_has_id(stack, tl[0]));
        }
    } else {
        let id = stack.last().id;
        assert(stack_has_id(stack, id)) by {
            assert(stack[stack.len() - 1].id == id);
        }
        assert(tl.contains(id));
        let k = choose|k: int| 0 <= k < tl.len() && tl[k] == id;
        let stack2 = stack.drop_last();
        let tl2 = tl.remove(k);
        crate::workspace::lemma_remove_id(tl, k);
        assert(forall|a: int| 0 <= a < stack2.len() ==> #[trigger] stack2[a] == stack[a]);
        assert(stack_ids_distinct(stack2));
        assert forall|y: u32|
            #![trigger tl2.contains(y)]
            #![trigger stack_has_id(stack2, y)]
            tl2.contains(y) <==> stack_has_id(stack2, y) by {
            if tl2.contains(y) {
                assert(tl.contains(y) && y != id);
                assert(stack_has_id(stack, y));
                let a = choose|a: int| 0 <= a < stack.len() && stack[a].id == y;
                assert(a != stack.len() - 1);
                assert(stack2[a].id == y);
            }
            if stack_has_id(stack2, y) {
                let a = choose|a: int| 0 <= a < stack2.len() && stack2[a].id == y;
                assert(stack[a].id == y);
                assert(stack_has_id(stack, y));
                assert(y != id) by {
                    assert(stack[a].id != stack[stack.len() - 1].id);
                }
            }
        }
        lemma_same_ids_len(stack2, tl2);
    }
}

proof fn lemma_leftover_props(
    existing: Seq<ExistingWindowView>,
    s: crate::session::SavedStateView,
    screen: ScreenInfo,
    k: int,
)
    requires
        existing_ids_distinct(existing),
        existing_geometry_ok(existing),
        0 <= k,
    ensures
        stack_ids_distinct(leftover_from(existing, s, screen, k)),
        forall|y: u32| #[trigger]
            stack_has_id(leftover_from(existing, s, screen, k), y) <==> (exists|j: int|
                k <= j < existing.len() && (#[trigger] existing[j]).id == y && eligible(
                    existing[j],
                )) && !saved_anywhere(s, y),
        forall|i: int|
            0 <= i < leftover_from(existing, s, screen, k).len() ==> (#[trigger] leftover_from(
                existing,
                s,
                screen,
                k,
            )[i]).wf(),
    decreases existing.len() - k,
{
    let cur = leftover_from(existing, s, screen, k);
    if k >= existing.len() {
        assert forall|y: u32| #[trigger] stack_has_id(cur, y) implies false by {}
    } else {
        lemma_leftover_props(existing, s, screen, k + 1);
        let rest = leftover_from(existing, s, screen, k + 1);
        if !saved_anywhere(s, existing[k].id) && eligible(existing[k]) {
            let c = discovered_client(existing[k], screen);
            assert(cur == seq![c] + rest);
            assert(cur[0] == c);
            assert(forall|i: int| 0 <= i < rest.len() ==> cur[i + 1] == rest[i]);
            assert(!stack_has_id(rest, c.id)) by {
                if stack_has_id(rest, c.id) {
                    let j = choose|j: int|
                        k + 1 <= j < existing.len() && (#[trigger] existing[j]).id == c.id
                            && eligible(existing[j]);
                    assert(existing[k].id != existing[j].id);
                }
            }
            assert forall|a: int, b: int| 0 <= a < b < cur.len() implies (#[trigger] cur[a]).id
                != (#[trigger] cur[b]).id by {
                if a == 0 {
                    assert(cur[b] == rest[b - 1]);
                    assert(stack_has_id(rest, rest[b - 1].id)) by {
                        assert(rest[b - 1].id == rest[b - 1].id);
                    }
                } else {
                    assert(cur[a] == rest[a - 1] && cur[b] == rest[b - 1]);
                }
            }
            assert forall|y: u32| #[trigger] stack_has_id(cur, y) implies ((exists|j: int|
                k <= j < existing.len() && (#[trigger] existing[j]).id == y && eligible(
                    existing[j],
                )) && !saved_anywhere(s, y)) by {
                let i = choose|i: int| 0 <= i < cur.len() && cur[i].id == y;
                if i == 0 {
                    assert(existing[k].id == y && eligible(existing[k]));
                } else {
                    assert(rest[i - 1].id == y);
                    assert(stack_has_id(rest, y));
                }
            }
            assert forall|y: u32|
                ((exists|j: int|
                    k <= j < existing.len() && (#[trigger] existing[j]).id == y && eligible(
                        existing[j],
                    )) && !saved_anywhere(s, y)) implies #[trigger] stack_has_id(cur, y) by {
                let j = choose|j: int|
                    k <= j < existing.len() && (#[trigger] existing[j]).id == y && eligible(
                        existing[j],
                    );
                if j == k {
                    assert(cur[0].id == y);
                } else {
                    assert(stack_has_id(rest, y));
                    let i = choose|i: int| 0 <= i < rest.len() && rest[i].id == y;
                    assert(cur[i + 1].id == y);
                }
            }
            assert forall|i: int| 0 <= i < cur.len() implies (#[trigger] cur[i]).wf() by {
                if i == 0 {
                } else {
                    assert(cur[i] == rest[i - 1]);
                }
            }
        } else {
            assert(cur == rest);
            assert forall|y: u32|
                ((exists|j: int|
                    k <= j < existing.len() && (#[trigger] existing[j]).id == y && eligible(
                        existing[j],
                    )) && !saved_anywhere(s, y)) implies #[trigger] stack_has_id(cur, y) by {
                let j = choose|j: int|
                    k <= j < existing.len() && (#[trigger] existing[j]).id == y && eligible(
                        existing[j],
                    );
                if j == k {
                    assert(false);
                } else {
                    assert(stack_has_id(rest, y));
                }
            }
        }
    }
}

proof fn lemma_ids_of(stack: Seq<ClientView>)
    ensures
        ids_of(stack).len() == stack.len(),
        forall|y: u32| #[trigger] ids_of(stack).contains(y) <==> stack_has_id(stack, y),
        stack_ids_distinct(stack) ==> ids_of(stack).no_duplicates(),
{
    assert forall|y: u32| #[trigger] ids_of(stack).contains(y) <==> stack_has_id(stack, y) by {
        if ids_of(stack).contains(y) {
            let i = choose|i: int| 0 <= i < ids_of(stack).len() && ids_of(stack)[i] == y;
            assert(stack[i].id == y);
        }
        if stack_has_id(stack, y) {
            let i = choose|i: int| 0 <= i < stack.len() && stack[i].id == y;
            assert(ids_of(stack)[i] == y);
        }
    }
}

proof fn lemma_stack_concat(a: Seq<ClientView>, b: Seq<ClientView>)
    ensures
        forall|y: u32| #[trigger]
            stack_has_id(a + b, y) <==> stack_has_id(a, y) || stack_has_id(b, y),
{
    assert forall|y: u32| #[trigger]
        stack_has_id(a + b, y) <==> stack_has_id(a, y) || stack_has_id(b, y) by {
        if stack_has_id(a + b, y) {
            let i = choose|i: int| 0 <= i < (a + b).len() && (a + b)[i].id == y;
            if i < a.len() {
                assert(a[i].id == y);
            } else {
                assert(b[i - a.len()].id == y);
            }
        }
        if stack_has_id(a, y) {
            let i = choose|i: int| 0 <= i < a.len() && a[i].id == y;
            assert((a + b)[i].id == y);
        }
        if stack_has_id(b, y) {
            let i = choose|i: int| 0 <= i < b.len() && b[i].id == y;
            assert((a + b)[a.len() + i].id == y);
        }
    }
}

proof fn lemma_tl_concat(a: Seq<u32>, b: Seq<u32>)
    ensures
        forall|y: u32| #[trigger] (a + b).contains(y) <==> a.contains(y) || b.contains(y),
{
    assert forall|y: u32| #[trigger] (a + b).contains(y) <==> a.contains(y) || b.contains(y) by {
        if (a + b).contains(y) {
            let i = choose|i: int| 0 <= i < (a + b).len() && (a + b)[i] == y;
            if i < a.len() {
                assert(a[i] == y);
            } else {
                assert(b[i - a.len()] == y);
            }
        }
        if a.contains(y) {
            let i = choose|i: int| 0 <= i < a.len() && a[i] == y;
            assert((a + b)[i] == y);
        }
        if b.contains(y) {
            let i = choose|i: int| 0 <= i < b.len() && b[i] == y;
            assert((a + b)[a.len() + i] == y);
        }
    }
}

proof fn lemma_startup_wf(
    v: WmView,
    s: crate::session::SavedStateView,
    ex: Seq<ExistingWindowView>,
    base: Seq<WorkspaceView>,
    left: Seq<ClientView>,
    act: int,
    screen: ScreenInfo,
)
    requires
        s.consistent(),
        screen.wf(),
        existing_ids_distinct(ex),
        existing_geometry_ok(ex),
        0 <= act < WORKSPACE_COUNT,
        act == s.active_workspace_index,
        base.len() == WORKSPACE_COUNT,
        forall|w: int|
            0 <= w < WORKSPACE_COUNT ==> (#[trigger] base[w]) == reconciled_workspace(
                s.workspaces[w],
                ex,
            ),
        forall|w: int| 0 <= w < WORKSPACE_COUNT ==> (#[trigger] base[w]).wf(),
        left == leftover_from(ex, s, screen, 0),
        v.workspaces == base.update(
            act,
            (WorkspaceView {
                stack: base[act].stack + left,
                tasklist: base[act].tasklist + ids_of(left),
            }),
        ),
        v.active_workspace_index == act,
        v.screen == screen,
        v.drag_state is None,
    ensures
        v.wf(),
{
    lemma_leftover_props(ex, s, screen, 0);
    lemma_ids_of(left);
    lemma_stack_concat(base[act].stack, left);
    lemma_tl_concat(base[act].tasklist, ids_of(left));

    // Membership of a re-adopted stack lies within the snapshot workspace.
    assert forall|w: int, y: u32|
        0 <= w < WORKSPACE_COUNT && #[trigger] stack_has_id(
            base[w].stack,
            y,
        ) implies crate::session::saved_has_id((#[trigger] s.workspaces[w]).stack, y) by {
        lemma_adopted_props(s.workspaces[w].stack, ex, 0);
        let j = choose|j: int|
            0 <= j < s.workspaces[w].stack.len() && (#[trigger] s.workspaces[w].stack[j]).id
                == y;
        assert(s.workspaces[w].stack[j].id == y);
    }

    let combined = v.workspaces[act];

    assert(combined.wf()) by {
        let bs = base[act].stack;
        let bt = base[act].tasklist;

        assert forall|y: u32| #[trigger]
            stack_has_id(bs, y) implies !stack_has_id(left, y) by {
            assert(crate::session::saved_has_id(s.workspaces[act].stack, y));
            assert(saved_anywhere(s, y)) by {
                assert(crate::session::saved_has_id(s.workspaces[act].stack, y));
            }
        }

        assert(stack_ids_distinct(combined.stack)) by {
            assert forall|a: int, b: int|
                0 <= a < b < combined.stack.len() implies (#[trigger] combined.stack[a]).id
                != (#[trigger] combined.stack[b]).id by {
                if b < bs.len() {
                    assert(combined.stack[a] == bs[a] && combined.stack[b] == bs[b]);
                } else if a >= bs.len() {
                    assert(combined.stack[a] == left[a - bs.len()] && combined.stack[b] == left[
                        b - bs.len()
                    ]);
                } else {
                    assert(combined.stack[a] == bs[a] && combined.stack[b] == left[
                        b - bs.len()
                    ]);
                    assert(stack_has_id(bs, bs[a].id)) by {
                        assert(bs[a].id == bs[a].id);
                    }
                    assert(stack_has_id(left, left[b - bs.len()].id)) by {
                        assert(left[b - bs.len()].id == left[b - bs.len()].id);
                    }
                }
            }
        }

        assert(combined.tasklist.no_duplicates()) by {
            assert forall|a: int, b: int|
                0 <= a < b < combined.tasklist.len() implies combined.tasklist[a]
                != combined.tasklist[b] by {
                if b < bt.len() {
                    assert(combined.tasklist[a] == bt[a] && combined.tasklist[b] == bt[b]);
                } else if a >= bt.len() {
                    assert(combined.tasklist[a] == ids_of(left)[a - bt.len()]
                        && combined.tasklist[b] == ids_of(left)[b - bt.len()]);
                    assert(ids_of(left).no_duplicates());
                } else {
                    assert(combined.tasklist[a] == bt[a] && combined.tasklist[b] == ids_of(
                        left,
                    )[b - bt.len()]);
                    assert(bt.contains(bt[a]));
                    assert(stack_has_id(bs, bt[a]));
                    assert(ids_of(left).contains(ids_of(left)[b - bt.len()]));
                    assert(stack_has_id(left, ids_of(left)[b - bt.len()]));
                }
            }
        }

        assert(combined.stack.len() == combined.tasklist.len());

        assert forall|y: u32|
            #![trigger combined.tasklist.contains(y)]
            #![trigger stack_has_id(combined.stack, y)]
            combined.tasklist.contains(y) <==> stack_has_id(combined.stack, y) by {
            assert(combined.tasklist.contains(y) <==> bt.contains(y) || ids_of(left).contains(
                y,
            ));
            assert(stack_has_id(combined.stack, y) <==> stack_has_id(bs, y) || stack_has_id(
                left,
                y,
            ));
        }

        assert forall|i: int| 0 <= i < combined.stack.len() implies (#[trigger] combined.stack[
            i
        ]).wf() by {
            if i < bs.len() {
                assert(combined.stack[i] == bs[i]);
            } else {
                assert(combined.stack[i] == left[i - bs.len()]);
            }
        }
    }

    assert forall|a: int, b: int, id: u32|
        0 <= a < v.workspaces.len() && 0 <= b < v.workspaces.len() && a != b && #[trigger]
        stack_has_id(v.workspaces[a].stack, id) implies !(#[trigger] stack_has_id(
        v.workspaces[b].stack,
        id,
    )) by {
        if stack_has_id(v.workspaces[b].stack, id) {
            let in_saved_a: bool = if a == act {
                if stack_has_id(base[act].stack, id) {
                    true
                } else {
                    assert(stack_has_id(left, id));
                    false
                }
            } else {
                assert(stack_has_id(base[a].stack, id));
                true
            };
            let in_saved_b: bool = if b == act {
                if stack_has_id(base[act].stack, id) {
                    true
                } else {
                    assert(stack_has_id(left, id));
                    false
                }
            } else {
                assert(stack_has_id(base[b].stack, id));
                true
            };
            if in_saved_a && in_saved_b {
                let wa: int = a;
                let wb: int = b;
                assert(crate::session::saved_has_id(s.workspaces[wa].stack, id)) by {
                    if wa == act {
                        assert(stack_has_id(base[act].stack, id));
                    } else {
                        assert(stack_has_id(base[wa].stack, id));
                    }
                }
                assert(crate::session::saved_has_id(s.workspaces[wb].stack, id)) by {
                    if wb == act {
                        assert(stack_has_id(base[act].stack, id));
                    } else {
                        assert(stack_has_id(base[wb].stack, id));
                    }
                }
            } else {
                assert(stack_has_id(left, id));
                assert(!saved_anywhere(s, id));
                if in_saved_a {
                    assert(crate::session::saved_has_id(s.workspaces[a].stack, id)) by {
                        if a == act {
                            assert(stack_has_id(base[act].stack, id));
                        } else {
                            assert(stack_has_id(base[a].stack, id));
                        }
                    }
                    assert(saved_anywhere(s, id)) by {
                        assert(crate::session::saved_has_id(s.workspaces[a].stack, id));
                    }
                } else if in_saved_b {
                    assert(crate::session::saved_has_id(s.workspaces[b].stack, id)) by {
                        if b == act {
                            assert(stack_has_id(base[act].stack, id));
                        } else {
                            assert(stack_has_id(base[b].stack, id));
                        }
                    }
                    assert(saved_anywhere(s, id)) by {
                        assert(crate::session::saved_has_id(s.workspaces[b].stack, id));
                    }
                } else {
                    assert(a == act && b == act);
                }
            }
        }
    }
}

/// The first discovered window with the given id.
fn find_existing(existing: &Vec<ExistingWindow>, id: u32) -> (r: Option<usize>)
    ensures
        match r {
            Some(k) => k < existing@.len() && existing@[k as int]@.id == id,
            None => !ex_has_id(existing_views(existing@), id),
        },
{
    let mut k: usize = 0;

    while k < existing.len()
        invariant
            k <= existing@.len(),
            forall|j: int| 0 <= j < k ==> (#[trigger] existing@[j]).id != id,
        decreases existing@.len() - k,
    {
        if existing[k].id == id {
            return Some(k);
        }
        k = k + 1;
    }

    proof {
        assert forall|j: int|
            0 <= j < existing_views(existing@).len() implies (#[trigger] existing_views(
            existing@,
        )[j]).id != id by {
            assert(existing@[j].id != id);
        }
    }

    None
}

/// The first client of a bare stack with the given id.
fn find_in_client_vec(stack: &Vec<Client>, id: u32) -> (r: Option<usize>)
    ensures
        match r {
            Some(k) => k < stack@.len() && stack@[k as int].id == id,
            None => !stack_has_id(crate::client::client_views(stack@), id),
        },
{
    let mut k: usize = 0;

    while k < stack.len()
        invariant
            k <= stack@.len(),
            forall|j: int| 0 <= j < k ==> (#[trigger] stack@[j]).id != id,
        decreases stack@.len() - k,
    {
        if stack[k].id == id {
            return Some(k);
        }
        k = k + 1;
    }

    proof {
        assert forall|j: int|
            0 <= j < crate::client::client_views(stack@).len() implies (#[trigger]
        crate::client::client_views(stack@)[j]).id != id by {
            assert(stack@[j].id != id);
        }
    }

    None
}

/// A copy of an optional string with the same value.
fn clone_opt_string(s: &Option<String>) -> (r: Option<String>)
    ensures
        opt_string_view(r) == opt_string_view(*s),
{
    match s {
        Some(x) => Some(x.clone()),
        None => None,
    }
}

/// A copy of an optional icon with the same value.
fn clone_opt_icon(ic: &Option<Icon>) -> (r: Option<Icon>)
    ensures
        opt_icon_view(r) == opt_icon_view(*ic),
{
    match ic {
        Some(x) => {
            let mut data: Vec<u32> = Vec::new();
            let mut i: usize = 0;

            while i < x.data.len()
                invariant
                    i <= x.data@.len(),
                    data@ == x.data@.take(i as int),
                decreases x.data@.len() - i,
            {
                data.push(x.data[i]);
                proof {
                    assert(data@ =~= x.data@.take(i + 1));
                }
                i = i + 1;
            }

            proof {
                assert(data@ =~= x.data@);
            }

            Some(Icon { width: x.width, height: x.height, data })
        },
        None => None,
    }
}

impl Wm {
    /// Re-adopt one snapshot workspace: its recorded stack filtered to the
    /// windows that still exist and may be managed, and its tasklist
    /// rebuilt from the recorded order.
    fn build_workspace(
        sw: &SavedWorkspace,
        existing: &Vec<ExistingWindow>,
        screen: ScreenInfo,
        map_containers: bool,
        cmds: &mut Vec<Command>,
    ) -> (w: Workspace)
        requires
            sw@.consistent(),
            screen.wf(),
            existing_ids_distinct(existing_views(existing@)),
            existing_geometry_ok(existing_views(existing@)),
        ensures
            w@ == reconciled_workspace(sw@, existing_views(existing@)),
            w@.wf(),
            final(cmds)@ == old(cmds)@ + adopt_cmds_from(
                sw@.stack,
                existing_views(existing@),
                screen,
                map_containers,
                0,
            ),
    {
        let ghost ex = existing_views(existing@);
        let ghost base0 = cmds@;
        let mut stack: Vec<Client> = Vec::new();
        let mut i: usize = 0;

        while i < sw.stack.len()
            invariant
                i <= sw@.stack.len(),
                sw@.consistent(),
                screen.wf(),
                ex == existing_views(existing@),
                existing_ids_distinct(ex),
                existing_geometry_ok(ex),
                crate::client::client_views(stack@) + adopted_from(sw@.stack, ex, i as int)
                    == adopted_from(sw@.stack, ex, 0),
                cmds@ + adopt_cmds_from(sw@.stack, ex, screen, map_containers, i as int) == base0
                    + adopt_cmds_from(sw@.stack, ex, screen, map_containers, 0),
            decreases sw@.stack.len() - i,
        {
            let sc = sw.stack[i];

            proof {
                assert(sc == sw@.stack[i as int]);
                assert(sc.wf());
            }

            let found = find_existing(existing, sc.id);

            match found {
                Some(kk) => {
                    proof {
                        assert(ex[kk as int] == existing@[kk as int]@);
                        assert(ex[kk as int].id == sc.id);
                        assert(ex_has_id(ex, sc.id));
                        assert(ex_index_of(ex, sc.id) == kk) by {
                            let m = ex_index_of(ex, sc.id);
                            assert(ex[m].id == sc.id);
                        }
                    }

                    let eligible_now = existing[kk].viewable && !existing[kk].override_redirect;

                    proof {
                        assert(eligible_now == eligible(ex[kk as int]));
                    }

                    if eligible_now {
                        let class = clone_opt_string(&existing[kk].class);
                        let title = clone_opt_string(&existing[kk].title);
                        let icon = clone_opt_icon(&existing[kk].icon);
                        let client = Client::new(
                            sc.id,
                            existing[kk].container_id,
                            sc.x,
                            sc.y,
                            sc.width,
                            sc.height,
                            sc.maximized,
                            class,
                            title,
                            icon,
                            screen,
                            cmds,
                        );

                        if map_containers {
                            cmds.push(Command::MapWindow(existing[kk].container_id));
                        }

                        let ghost prior = crate::client::client_views(stack@);
                        stack.push(client);

                        proof {
                            assert(client@ == adopted_client(sc, ex[kk as int]));
                            assert(crate::client::client_views(stack@) =~= prior.push(client@));
                            assert(adopted_from(sw@.stack, ex, i as int) == seq![client@]
                                + adopted_from(sw@.stack, ex, i + 1));
                            assert(crate::client::client_views(stack@) + adopted_from(
                                sw@.stack,
                                ex,
                                i + 1,
                            ) =~= prior + adopted_from(sw@.stack, ex, i as int));
                            assert(cmds@ + adopt_cmds_from(
                                sw@.stack,
                                ex,
                                screen,
                                map_containers,
                                i + 1,
                            ) =~= base0 + adopt_cmds_from(
                                sw@.stack,
                                ex,
                                screen,
                                map_containers,
                                0,
                            ));
                        }
                    } else {
                        proof {
                            assert(adopted_from(sw@.stack, ex, i as int) == adopted_from(
                                sw@.stack,
                                ex,
                                i + 1,
                            ));
                            assert(adopt_cmds_from(sw@.stack, ex, screen, map_containers, i as int)
                                == adopt_cmds_from(sw@.stack, ex, screen, map_containers, i + 1));
                        }
                    }
                },
                None => {
                    proof {
                        assert(!ex_has_id(ex, sc.id));
                        assert(adopted_from(sw@.stack, ex, i as int) == adopted_from(
                            sw@.stack,
                            ex,
                            i + 1,
                        ));
                        assert(adopt_cmds_from(sw@.stack, ex, screen, map_containers, i as int)
                            == adopt_cmds_from(sw@.stack, ex, screen, map_containers, i + 1));
                    }
                },
            }

            i = i + 1;
        }

        let ghost adopted = adopted_from(sw@.stack, ex, 0);

        proof {
            assert(adopted_from(sw@.stack, ex, sw@.stack.len() as int) == Seq::<
                ClientView,
            >::empty());
            assert(crate::client::client_views(stack@) =~= adopted);
            assert(cmds@ =~= base0 + adopt_cmds_from(sw@.stack, ex, screen, map_containers, 0));
        }

        let mut tasklist: Vec<u32> = Vec::new();
        let mut t: usize = 0;

        while t < sw.tasklist.len()
            invariant
                t <= sw@.tasklist.len(),
                adopted == adopted_from(sw@.stack, ex, 0),
                crate::client::client_views(stack@) == adopted,
                tasklist@ + kept_from(sw@.tasklist, adopted, t as int) == kept_from(
                    sw@.tasklist,
                    adopted,
                    0,
                ),
            decreases sw@.tasklist.len() - t,
        {
            let id = sw.tasklist[t];

            proof {
                assert(id == sw@.tasklist[t as int]);
            }

            match find_in_client_vec(&stack, id) {
                Some(k) => {
                    let ghost prior = tasklist@;
                    tasklist.push(id);
                    proof {
                        assert(stack_has_id(adopted, id)) by {
                            assert(crate::client::client_views(stack@)[k as int].id == id);
                        }
                        assert(kept_from(sw@.tasklist, adopted, t as int) == seq![id] + kept_from(
                            sw@.tasklist,
                            adopted,
                            t + 1,
                        ));
                        assert(tasklist@ + kept_from(sw@.tasklist, adopted, t + 1) =~= prior
                            + kept_from(sw@.tasklist, adopted, t as int));
                    }
                },
                None => {
                    proof {
                        assert(!stack_has_id(adopted, id));
                        assert(kept_from(sw@.tasklist, adopted, t as int) == kept_from(
                            sw@.tasklist,
                            adopted,
                            t + 1,
                        ));
                    }
                },
            }

            t = t + 1;
        }

        let ghost kept = kept_from(sw@.tasklist, adopted, 0);

        proof {
            assert(kept_from(sw@.tasklist, adopted, sw@.tasklist.len() as int) == Seq::<
                u32,
            >::empty());
            assert(tasklist@ =~= kept);
        }

        let w = Workspace { stack, tasklist };

        proof {
            assert(w@.stack =~= adopted);
            assert(w@.tasklist == kept);
            assert(w@ == reconciled_workspace(sw@, ex));

            lemma_adopted_props(sw@.stack, ex, 0);
            lemma_kept_props(sw@.tasklist, adopted, 0);

            assert forall|y: u32|
                #![trigger kept.contains(y)]
                #![trigger stack_has_id(adopted, y)]
                kept.contains(y) <==> stack_has_id(adopted, y) by {
                if kept.contains(y) {
                }
                if stack_has_id(adopted, y) {
                    assert(crate::session::saved_has_id(sw@.stack, y)) by {
                        let j = choose|j: int|
                            0 <= j < sw@.stack.len() && (#[trigger] sw@.stack[j]).id == y;
                        assert(sw@.stack[j].id == y);
                    }
                    assert(sw@.tasklist.contains(y));
                    let j = choose|j: int|
                        0 <= j < sw@.tasklist.len() && sw@.tasklist[j] == y;
                    assert(kept.contains(y));
                }
            }

            lemma_same_ids_len(adopted, kept);
            assert(w@.wf());
        }

        w
    }

    /// Whether any workspace of the snapshot records the given id.
    fn saved_contains(saved: &SavedState, id: u32) -> (r: bool)
        ensures
            r == saved_anywhere(saved@, id),
    {
        let mut w: usize = 0;

        while w < saved.workspaces.len()
            invariant
                w <= saved@.workspaces.len(),
                saved@.workspaces.len() == saved.workspaces@.len(),
                forall|v: int|
                    0 <= v < w ==> !crate::session::saved_has_id(
                        (#[trigger] saved@.workspaces[v]).stack,
                        id,
                    ),
            decreases saved@.workspaces.len() - w,
        {
            match saved.workspaces[w].find_in_stack(id) {
                Some(_) => {
                    proof {
                        assert(saved@.workspaces[w as int] == saved.workspaces@[w as int]@);
                        assert(crate::session::saved_has_id(
                            saved@.workspaces[w as int].stack,
                            id,
                        ));
                    }
                    return true;
                },
                None => {
                    proof {
                        assert(saved@.workspaces[w as int] == saved.workspaces@[w as int]@);
                    }
                },
            }
            w = w + 1;
        }

        false
    }

    /// Reconcile the windows found on the display server with the previous
    /// session: every snapshot entry whose window still exists and may be
    /// managed is re-adopted with its recorded geometry, each tasklist is
    /// rebuilt from the recorded order, leftover windows join the active
    /// workspace with live geometry, and focus lands on the active
    /// workspace's topmost client.  A snapshot must have passed the
    /// consistency screen; `None` stands for no prior session.
    pub fn new(screen: ScreenInfo, saved: Option<SavedState>, existing: Vec<ExistingWindow>) -> (r:
        (Wm, Vec<Command>))
        requires
            screen.wf(),
            existing_ids_distinct(existing_views(existing@)),
            existing_geometry_ok(existing_views(existing@)),
            match saved {
                Some(s) => s@.consistent(),
                None => true,
            },
        ensures
            r.0@.wf(),
            r.0@ == startup_state(
                screen,
                match saved {
                    Some(s) => Some(s@),
                    None => None,
                },
                existing_views(existing@),
            ),
            r.1@ == startup_cmds(
                screen,
                match saved {
                    Some(s) => Some(s@),
                    None => None,
                },
                existing_views(existing@),
            ),
    {
        let ghost savedview = match saved {
            Some(ref s) => Some(s@),
            None => None::<crate::session::SavedStateView>,
        };
        let ghost ex = existing_views(existing@);

        let saved_state = match saved {
            Some(s) => s,
            None => {
                let mut sws: Vec<SavedWorkspace> = Vec::new();
                let mut w: usize = 0;

                while w < WORKSPACE_COUNT
                    invariant
                        w <= WORKSPACE_COUNT,
                        sws@.len() == w,
                        forall|v: int|
                            0 <= v < w ==> (#[trigger] sws@[v])@.stack.len() == 0 && sws@[
                                v
                            ]@.tasklist.len() == 0,
                    decreases WORKSPACE_COUNT - w,
                {
                    sws.push(SavedWorkspace { stack: Vec::new(), tasklist: Vec::new() });
                    w = w + 1;
                }

                SavedState { workspaces: sws, active_workspace_index: 0 }
            },
        };

        proof {
            if savedview is None {
                assert forall|v: int|
                    0 <= v < WORKSPACE_COUNT implies saved_state@.workspaces[v]
                    == normalized_saved(savedview).workspaces[v] by {
                    assert(saved_state@.workspaces[v].stack =~= Seq::<SavedClient>::empty());
                    assert(saved_state@.workspaces[v].tasklist =~= Seq::<u32>::empty());
                }
            }
            assert(saved_state@.workspaces =~= normalized_saved(savedview).workspaces);
            assert(saved_state@ == normalized_saved(savedview));
            if savedview is None {
                assert forall|v: int|
                    0 <= v < WORKSPACE_COUNT implies (#[trigger] saved_state@.workspaces[
                    v
                ]).consistent() by {
                    let sw = saved_state@.workspaces[v];
                    assert forall|y: u32| #[trigger] sw.tasklist.contains(y) implies false by {}
                    assert forall|y: u32| #[trigger]
                        crate::session::saved_has_id(sw.stack, y) implies false by {}
                }
                assert forall|a: int, b: int, id: u32|
                    0 <= a < saved_state@.workspaces.len() && 0 <= b
                        < saved_state@.workspaces.len() && a != b && #[trigger]
                    crate::session::saved_has_id(
                        saved_state@.workspaces[a].stack,
                        id,
                    ) implies !(#[trigger] crate::session::saved_has_id(
                    saved_state@.workspaces[b].stack,
                    id,
                )) by {}
            }
            assert(saved_state@.consistent());
        }

        let ghost s = saved_state@;
        let mut cmds: Vec<Command> = Vec::new();
        let mut workspaces: Vec<Workspace> = Vec::new();
        let act = saved_state.active_workspace_index;
        let mut w: usize = 0;

        while w < WORKSPACE_COUNT
            invariant
                w <= WORKSPACE_COUNT,
                s == saved_state@,
                s.consistent(),
                screen.wf(),
                ex == existing_views(existing@),
                existing_ids_distinct(ex),
                existing_geometry_ok(ex),
                act as int == s.active_workspace_index,
                saved_state.workspaces@.len() == WORKSPACE_COUNT,
                workspaces@.len() == w,
                forall|v: int|
                    0 <= v < w ==> (#[trigger] workspaces@[v])@ == reconciled_workspace(
                        s.workspaces[v],
                        ex,
                    ) && workspaces@[v]@.wf(),
                cmds@ + startup_ws_cmds(s, ex, screen, w as int) == startup_ws_cmds(
                    s,
                    ex,
                    screen,
                    0,
                ),
            decreases WORKSPACE_COUNT - w,
        {
            proof {
                assert(saved_state.workspaces@[w as int]@ == s.workspaces[w as int]);
                assert(s.workspaces[w as int].consistent());
            }

            let map_containers = w == act;
            let ws = Self::build_workspace(
                &saved_state.workspaces[w],
                &existing,
                screen,
                map_containers,
                &mut cmds,
            );
            workspaces.push(ws);
            w = w + 1;

            proof {
                assert(startup_ws_cmds(s, ex, screen, w - 1) == adopt_cmds_from(
                    s.workspaces[w - 1].stack,
                    ex,
                    screen,
                    w - 1 == s.active_workspace_index,
                    0,
                ) + startup_ws_cmds(s, ex, screen, w as int));
                assert(cmds@ + startup_ws_cmds(s, ex, screen, w as int) =~= startup_ws_cmds(
                    s,
                    ex,
                    screen,
                    0,
                ));
            }
        }

        let ghost base = Seq::new(
            WORKSPACE_COUNT as nat,
            |v: int| reconciled_workspace(s.workspaces[v], ex),
        );

        proof {
            assert(forall|v: int|
                0 <= v < WORKSPACE_COUNT ==> (#[trigger] workspaces@[v])@ == base[v]
                    && workspaces@[v]@.wf());
            assert(startup_ws_cmds(s, ex, screen, WORKSPACE_COUNT as int) == Seq::<
                Command,
            >::empty());
            assert(cmds@ =~= startup_ws_cmds(s, ex, screen, 0));
            assert forall|v: int| 0 <= v < WORKSPACE_COUNT implies (#[trigger] base[v]).wf() by {
                assert(workspaces@[v]@ == base[v] && workspaces@[v]@.wf());
            }
        }

        let ghost cmds_after_ws = cmds@;
        let ghost base_stack = base[act as int].stack;
        let ghost base_tl = base[act as int].tasklist;
        let mut k: usize = 0;

        while k < existing.len()
            invariant
                k <= existing@.len(),
                s == saved_state@,
                s.consistent(),
                screen.wf(),
                ex == existing_views(existing@),
                existing_ids_distinct(ex),
                existing_geometry_ok(ex),
                act as int == s.active_workspace_index,
                0 <= act < WORKSPACE_COUNT,
                saved_state.workspaces@.len() == WORKSPACE_COUNT,
                workspaces@.len() == WORKSPACE_COUNT,
                base_stack == base[act as int].stack,
                base_tl == base[act as int].tasklist,
                forall|v: int|
                    0 <= v < WORKSPACE_COUNT && v != act ==> (#[trigger] workspaces@[v])@
                        == base[v],
                workspaces@[act as int]@.stack.len() >= base_stack.len(),
                workspaces@[act as int]@.stack.take(base_stack.len() as int) == base_stack,
                workspaces@[act as int]@.stack.skip(base_stack.len() as int) + leftover_from(
                    ex,
                    s,
                    screen,
                    k as int,
                ) == leftover_from(ex, s, screen, 0),
                workspaces@[act as int]@.tasklist.len() >= base_tl.len(),
                workspaces@[act as int]@.tasklist.take(base_tl.len() as int) == base_tl,
                workspaces@[act as int]@.tasklist.skip(base_tl.len() as int) == ids_of(
                    workspaces@[act as int]@.stack.skip(base_stack.len() as int),
                ),
                cmds@ + leftover_cmds_from(ex, s, screen, k as int) == cmds_after_ws
                    + leftover_cmds_from(ex, s, screen, 0),
            decreases existing@.len() - k,
        {
            let e_viewable = existing[k].viewable;
            let e_override = existing[k].override_redirect;
            let in_saved = Self::saved_contains(&saved_state, existing[k].id);

            proof {
                assert(ex[k as int] == existing@[k as int]@);
                assert(in_saved == saved_anywhere(s, ex[k as int].id));
                assert(e_viewable == ex[k as int].viewable);
                assert(e_override == ex[k as int].override_redirect);
            }

            if !in_saved && e_viewable && !e_override {
                let maximized = existing[k].width == screen.width;
                let class = clone_opt_string(&existing[k].class);
                let title = clone_opt_string(&existing[k].title);
                let icon = clone_opt_icon(&existing[k].icon);
                let client = Client::new(
                    existing[k].id,
                    existing[k].container_id,
                    existing[k].x,
                    existing[k].y,
                    existing[k].width,
                    existing[k].height,
                    maximized,
                    class,
                    title,
                    icon,
                    screen,
                    &mut cmds,
                );
                cmds.push(Command::MapWindow(existing[k].container_id));

                let ghost prior_ws = workspaces@[act as int]@;
                let aws = &mut workspaces[act];
                aws.stack.push(client);
                aws.tasklist.push(existing[k].id);

                proof {
                    assert(client@ == discovered_client(ex[k as int], screen));
                    let nws = workspaces@[act as int]@;
                    assert(nws.stack =~= prior_ws.stack.push(client@));
                    assert(nws.tasklist =~= prior_ws.tasklist.push(client@.id));
                    assert(leftover_from(ex, s, screen, k as int) == seq![client@]
                        + leftover_from(ex, s, screen, k + 1));
                    assert(leftover_cmds_from(ex, s, screen, k as int) == crate::client::init_cmds(
                        client@,
                        screen,
                    ) + seq![Command::MapWindow(client@.container_id)] + leftover_cmds_from(
                        ex,
                        s,
                        screen,
                        k + 1,
                    ));
                    assert(nws.stack.take(base_stack.len() as int) =~= base_stack);
                    assert(nws.stack.skip(base_stack.len() as int) =~= prior_ws.stack.skip(
                        base_stack.len() as int,
                    ).push(client@));
                    assert(nws.stack.skip(base_stack.len() as int) + leftover_from(
                        ex,
                        s,
                        screen,
                        k + 1,
                    ) =~= leftover_from(ex, s, screen, 0));
                    assert(nws.tasklist.take(base_tl.len() as int) =~= base_tl);
                    assert(nws.tasklist.skip(base_tl.len() as int) =~= prior_ws.tasklist.skip(
                        base_tl.len() as int,
                    ).push(client@.id));
                    assert(ids_of(prior_ws.stack.skip(base_stack.len() as int).push(client@))
                        =~= ids_of(prior_ws.stack.skip(base_stack.len() as int)).push(
                        client@.id,
                    ));
                    assert(nws.tasklist.skip(base_tl.len() as int) =~= ids_of(
                        nws.stack.skip(base_stack.len() as int),
                    ));
                    assert(cmds@ + leftover_cmds_from(ex, s, screen, k + 1) =~= cmds_after_ws
                        + leftover_cmds_from(ex, s, screen, 0));
                }
            } else {
                proof {
                    assert(leftover_from(ex, s, screen, k as int) == leftover_from(
                        ex,
                        s,
                        screen,
                        k + 1,
                    ));
                    assert(leftover_cmds_from(ex, s, screen, k as int) == leftover_cmds_from(
                        ex,
                        s,
                        screen,
                        k + 1,
                    ));
                }
            }

            k = k + 1;
        }

        let ghost left = leftover_from(ex, s, screen, 0);

        proof {
            assert(leftover_from(ex, s, screen, existing@.len() as int) == Seq::<
                ClientView,
            >::empty());
            assert(leftover_cmds_from(ex, s, screen, existing@.len() as int) == Seq::<
                Command,
            >::empty());
            assert(workspaces@[act as int]@.stack.skip(base_stack.len() as int) =~= left);
            assert(workspaces@[act as int]@.stack =~= base_stack + left);
            assert(workspaces@[act as int]@.tasklist =~= base_tl + ids_of(left));
            assert(cmds@ =~= cmds_after_ws + leftover_cmds_from(ex, s, screen, 0));
        }

        let focus = if workspaces[act].stack.len() > 0 {
            let l = workspaces[act].stack.len() - 1;
            Some(workspaces[act].stack[l].id)
        } else {
            None
        };
        cmds.push(Command::SetFocus(focus));

        let wm = Wm { workspaces, active_workspace_index: act, drag_state: None, screen };

        proof {
            let v = startup_state(screen, savedview, ex);
            assert(wm@.workspaces =~= v.workspaces);
            assert(wm@ == v);
            assert(focus == v.active().focused()) by {
                assert(v.active() == wm@.workspaces[act as int]);
                if wm@.workspaces[act as int].stack.len() > 0 {
                    let l = wm@.workspaces[act as int].stack.len() - 1;
                    assert(wm@.workspaces[act as int].stack[l]
                        == wm.workspaces@[act as int].stack@[l]@);
                }
            }
            assert(cmds@ =~= startup_cmds(screen, savedview, ex));

            lemma_startup_wf(wm@, s, ex, base, left, act as int, screen);
        }

        (wm, cmds)
    }
}

} // verus!
