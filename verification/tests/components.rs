use vaporwm::client::Client;
use vaporwm::command::Command;
use vaporwm::command::Keycode;
use vaporwm::config::ScreenInfo;
use vaporwm::cycle_next;
use vaporwm::cycle_previous;
use vaporwm::icon::find_most_appropriate_icon;
use vaporwm::icon::parse_icons;
use vaporwm::icon::Icon;
use vaporwm::panel::hit_test;
use vaporwm::panel::tasklist_layout;
use vaporwm::panel::Span;
use vaporwm::session::SavedClient;
use vaporwm::session::SavedState;
use vaporwm::session::SavedWorkspace;
use vaporwm::spawner::Spawner;

fn screen() -> ScreenInfo {
    ScreenInfo { width: 1920, height: 1080 }
}

fn plain_client(id: u32, container_id: u32, x: i16, y: i16, width: u16, height: u16) -> Client {
    Client {
        id,
        container_id,
        x,
        y,
        width,
        height,
        maximized: false,
        need_redraw: false,
        class: None,
        title: None,
        icon: None,
    }
}

#[test]
fn cycle_next_then_previous_restores_index() {
    let items = [10, 20, 30, 40];
    for i in 0..items.len() {
        let n = cycle_next(&items, i);
        assert_eq!(cycle_previous(&items, n), i);
        let p = cycle_previous(&items, i);
        assert_eq!(cycle_next(&items, p), i);
    }
}

#[test]
fn cycle_wraps_at_both_ends() {
    let items = [1, 2, 3];
    assert_eq!(cycle_next(&items, 2), 0);
    assert_eq!(cycle_previous(&items, 0), 2);
    assert_eq!(cycle_next(&items, 0), 1);
    assert_eq!(cycle_previous(&items, 2), 1);
}

#[test]
fn parse_icons_decodes_two_icons() {
    // Two icons: 1x1 and 2x1, back to back.
    let words = vec![1, 1, 0xFF00FF00, 2, 1, 0x11223344, 0x55667788];
    let icons = parse_icons(&words).expect("well-formed property");
    assert_eq!(icons.len(), 2);
    assert_eq!(icons[0].width, 1);
    assert_eq!(icons[0].height, 1);
    assert_eq!(icons[0].data, vec![0xFF00FF00]);
    assert_eq!(icons[1].width, 2);
    assert_eq!(icons[1].height, 1);
    assert_eq!(icons[1].data, vec![0x11223344, 0x55667788]);
}

#[test]
fn parse_icons_rejects_truncated_data() {
    // Header claims 2x2 pixels but only one word follows.
    let words = vec![2, 2, 0xFFFFFFFF];
    assert!(parse_icons(&words).is_none());
    // An empty property carries no icon.
    assert!(parse_icons(&Vec::new()).is_none());
    // A lone header word is cut short.
    assert!(parse_icons(&vec![4]).is_none());
}

#[test]
fn find_most_appropriate_icon_prefers_exact_display_size() {
    let icons = vec![
        Icon { width: 32, height: 32, data: vec![0; 1024] },
        Icon { width: 16, height: 16, data: vec![0; 256] },
        Icon { width: 64, height: 64, data: vec![0; 4096] },
    ];
    assert_eq!(find_most_appropriate_icon(&icons), Some(1));
}

#[test]
fn find_most_appropriate_icon_falls_back_to_the_preferred_square() {
    // Without an exact match, a strictly larger square wins over a smaller
    // one under the delta comparison.
    let icons = vec![
        Icon { width: 8, height: 8, data: vec![0; 64] },
        Icon { width: 32, height: 32, data: vec![0; 1024] },
    ];
    assert_eq!(find_most_appropriate_icon(&icons), Some(1));
    // In the reverse order the larger square still wins.
    let icons = vec![
        Icon { width: 32, height: 32, data: vec![0; 1024] },
        Icon { width: 8, height: 8, data: vec![0; 64] },
    ];
    assert_eq!(find_most_appropriate_icon(&icons), Some(0));
    assert_eq!(find_most_appropriate_icon(&Vec::new()), None);
}

#[test]
fn premultiplied_bytes_scales_by_alpha() {
    // One pixel: alpha 0x80, red 0xFF, green 0x40, blue 0x00.
    let icon = Icon { width: 1, height: 1, data: vec![0x80FF4000] };
    let bytes = icon.premultiplied_bytes();
    // Blue, green, red, alpha; each colour times 128 over 255.
    assert_eq!(bytes, vec![0u8, ((0x40u32 * 0x80u32) / 255) as u8, ((0xFFu32 * 0x80u32) / 255) as u8, 0x80u8]);
}

#[test]
fn client_geometry_follows_the_two_layout_policies() {
    let c = plain_client(7, 107, 100, 200, 640, 480);
    assert_eq!(c.container_x(), 95);
    assert_eq!(c.container_y(), 170);
    assert_eq!(c.container_width(screen()), 650);
    assert_eq!(c.container_height(screen()), 515);
    assert_eq!(c.inner_offset_x(), 5);
    assert_eq!(c.inner_offset_y(), 30);

    let mut m = plain_client(8, 108, 100, 200, 640, 480);
    let mut cmds: Vec<Command> = Vec::new();
    m.set_maximized(true, screen(), &mut cmds);
    assert_eq!(m.container_x(), 0);
    assert_eq!(m.container_y(), 28);
    assert_eq!(m.container_width(screen()), 1920);
    assert_eq!(m.container_height(screen()), 1080 - 28 - 30);
    assert_eq!(m.inner_offset_x(), 0);
    assert_eq!(m.inner_offset_y(), 0);
}

#[test]
fn toggling_maximized_twice_restores_geometry() {
    let mut c = plain_client(7, 107, 100, 200, 640, 480);
    let mut cmds: Vec<Command> = Vec::new();
    c.set_maximized(true, screen(), &mut cmds);
    assert!(c.maximized());
    // Resizing while maximized records the values but issues no commands.
    let before = cmds.len();
    c.set_size(555, 444, screen(), &mut cmds);
    assert_eq!(cmds.len(), before);
    c.set_maximized(false, screen(), &mut cmds);
    assert!(!c.maximized());
    assert_eq!((c.x(), c.y()), (100, 200));
    assert_eq!((c.width(), c.height()), (555, 444));
}

#[test]
fn set_maximized_same_mode_is_a_no_op() {
    let mut c = plain_client(7, 107, 100, 200, 640, 480);
    let mut cmds: Vec<Command> = Vec::new();
    c.set_maximized(false, screen(), &mut cmds);
    assert!(cmds.is_empty());
}

#[test]
fn unmaximizing_regrabs_and_maximizing_ungrabs() {
    let mut c = plain_client(7, 107, 100, 200, 640, 480);
    let mut cmds: Vec<Command> = Vec::new();
    c.set_maximized(true, screen(), &mut cmds);
    assert!(cmds.contains(&Command::UngrabContainerButtons(107)));
    cmds.clear();
    c.set_maximized(false, screen(), &mut cmds);
    assert!(cmds.contains(&Command::GrabContainerButtons(107)));
}

#[test]
fn tasklist_layout_caps_entries_at_three_hundred() {
    let spans = tasklist_layout(1920, 3);
    assert_eq!(
        spans,
        vec![
            Span { start: 0, end: 300 },
            Span { start: 300, end: 600 },
            Span { start: 600, end: 900 },
        ]
    );
}

#[test]
fn tasklist_layout_justifies_the_last_entry() {
    // 1920 / 10 = 192, under the cap, so the layout is justified and the
    // last entry absorbs the remainder of the screen.
    let spans = tasklist_layout(1920, 10);
    assert_eq!(spans.len(), 10);
    assert_eq!(spans[0], Span { start: 0, end: 192 });
    assert_eq!(spans[9], Span { start: 9 * 192, end: 9 * 192 + (1920 - 192) });
}

#[test]
fn hit_test_returns_the_first_containing_span() {
    let spans = vec![
        Span { start: 0, end: 100 },
        Span { start: 90, end: 200 },
        Span { start: 300, end: 400 },
    ];
    assert_eq!(hit_test(&spans, 95), Some(0));
    assert_eq!(hit_test(&spans, 150), Some(1));
    assert_eq!(hit_test(&spans, 350), Some(2));
    assert_eq!(hit_test(&spans, 250), None);
}

#[test]
fn spawner_maps_hotkeys_to_commands() {
    let spawner = Spawner::new();
    assert_eq!(spawner.command_for(Keycode::T), Some("xfce4-terminal &"));
    assert_eq!(spawner.command_for(Keycode::B), Some("firefox &"));
    assert_eq!(
        spawner.command_for(Keycode::PrintScreen),
        Some("maim --hidecursor | xclip -selection clipboard -t image/png")
    );
    assert_eq!(spawner.command_for(Keycode::M), None);
    assert_eq!(spawner.command_for(Keycode::Escape), None);
}

fn empty_saved_workspace() -> SavedWorkspace {
    SavedWorkspace { stack: Vec::new(), tasklist: Vec::new() }
}

#[test]
fn saved_state_consistency_screen() {
    let mut workspaces: Vec<SavedWorkspace> = (0..9).map(|_| empty_saved_workspace()).collect();
    workspaces[0] = SavedWorkspace {
        stack: vec![SavedClient { id: 7, x: 1, y: 2, width: 3, height: 4, maximized: false }],
        tasklist: vec![7],
    };
    let good = SavedState { workspaces, active_workspace_index: 0 };
    assert!(good.is_consistent());

    // A tasklist that does not match its stack is rejected.
    let mut workspaces: Vec<SavedWorkspace> = (0..9).map(|_| empty_saved_workspace()).collect();
    workspaces[0] = SavedWorkspace {
        stack: vec![SavedClient { id: 7, x: 1, y: 2, width: 3, height: 4, maximized: false }],
        tasklist: vec![8],
    };
    let bad = SavedState { workspaces, active_workspace_index: 0 };
    assert!(!bad.is_consistent());

    // An out-of-range active index is rejected.
    let workspaces: Vec<SavedWorkspace> = (0..9).map(|_| empty_saved_workspace()).collect();
    let bad = SavedState { workspaces, active_workspace_index: 9 };
    assert!(!bad.is_consistent());

    // The same id in two workspaces is rejected.
    let mut workspaces: Vec<SavedWorkspace> = (0..9).map(|_| empty_saved_workspace()).collect();
    workspaces[0] = SavedWorkspace {
        stack: vec![SavedClient { id: 7, x: 1, y: 2, width: 3, height: 4, maximized: false }],
        tasklist: vec![7],
    };
    workspaces[1] = SavedWorkspace {
        stack: vec![SavedClient { id: 7, x: 1, y: 2, width: 3, height: 4, maximized: true }],
        tasklist: vec![7],
    };
    let bad = SavedState { workspaces, active_workspace_index: 0 };
    assert!(!bad.is_consistent());
}
