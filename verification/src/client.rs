//! One managed window: its content geometry, its decoration container, the
//! maximize mode that switches between the two layout policies, and the
//! externally supplied metadata.  Every mutation appends the display-server
//! commands the host must issue for it.

use vstd::prelude::*;

use crate::command::Command;
use crate::config::BORDER_WIDTH;
use crate::config::MAX_CLIENT_HEIGHT;
use crate::config::MAX_CLIENT_WIDTH;
use crate::config::MIN_CLIENT_X;
use crate::config::MIN_CLIENT_Y;
use crate::config::ScreenInfo;
use crate::config::TITLEBAR_HEIGHT;
use crate::config::TOP_PANEL_HEIGHT;
use crate::icon::Icon;
use crate::icon::IconView;

verus! {

/// One managed top-level window and its decoration container.
pub struct Client {
    /// The content window, owned by the client program.
    pub id: u32,
    /// The decoration window the core created around the content.
    pub container_id: u32,
    /// Content x, independent of decoration.
    pub x: i16,
    /// Content y, independent of decoration.
    pub y: i16,
    /// Content width; ignored for layout while maximized but retained.
    pub width: u16,
    /// Content height; ignored for layout while maximized but retained.
    pub height: u16,
    /// Maximized clients fill the usable screen band with no decoration.
    pub maximized: bool,
    /// Dirty flag: the decoration is repainted only when set.
    pub need_redraw: bool,
    /// Program identifier, externally supplied.
    pub class: Option<String>,
    /// Display title, externally supplied.
    pub title: Option<String>,
    /// Decoded icon, externally supplied.
    pub icon: Option<Icon>,
}

/// The mathematical value of a [`Client`].
pub struct ClientView {
    pub id: u32,
    pub container_id: u32,
    pub x: i16,
    pub y: i16,
    pub width: u16,
    pub height: u16,
    pub maximized: bool,
    pub need_redraw: bool,
    pub class: Option<Seq<char>>,
    pub title: Option<Seq<char>>,
    pub icon: Option<IconView>,
}

impl View for Client {
    type V = ClientView;

    open spec fn view(&self) -> ClientView {
        ClientView {
            id: self.id,
            container_id: self.container_id,
            x: self.x,
            y: self.y,
            width: self.width,
            height: self.height,
            maximized: self.maximized,
            need_redraw: self.need_redraw,
            class: match self.class {
                Some(ref s) => Some(s@),
                None => None,
            },
            title: match self.title {
                Some(ref s) => Some(s@),
                None => None,
            },
            icon: match self.icon {
                Some(ref ic) => Some(ic@),
                None => None,
            },
        }
    }
}

impl ClientView {
    /// The geometry leaves room for the decoration within the protocol's
    /// coordinate space.
    pub open spec fn wf(self) -> bool {
        &&& self.x >= MIN_CLIENT_X
        &&& self.y >= MIN_CLIENT_Y
        &&& self.width <= MAX_CLIENT_WIDTH
        &&& self.height <= MAX_CLIENT_HEIGHT
    }

    /// Container x: flush left when maximized, else the content x minus the
    /// border.
    pub open spec fn container_x_spec(self) -> int {
        if self.maximized {
            0
        } else {
            self.x - BORDER_WIDTH
        }
    }

    /// Container y: just below the top panel when maximized, else the
    /// content y minus border and titlebar.
    pub open spec fn container_y_spec(self) -> int {
        if self.maximized {
            TOP_PANEL_HEIGHT as int
        } else {
            self.y - BORDER_WIDTH - TITLEBAR_HEIGHT
        }
    }

    /// Container width: the whole screen when maximized, else the content
    /// width plus both borders.
    pub open spec fn container_width_spec(self, screen: ScreenInfo) -> int {
        if self.maximized {
            screen.width as int
        } else {
            self.width + 2 * BORDER_WIDTH
        }
    }

    /// Container height: the usable band when maximized, else the content
    /// height plus borders and titlebar.
    pub open spec fn container_height_spec(self, screen: ScreenInfo) -> int {
        if self.maximized {
            screen.usable_height_spec()
        } else {
            self.height + 2 * BORDER_WIDTH + TITLEBAR_HEIGHT
        }
    }

    /// Content offset inside the container, x axis.
    pub open spec fn inner_offset_x_spec(self) -> int {
        if self.maximized {
            0
        } else {
            BORDER_WIDTH as int
        }
    }

    /// Content offset inside the container, y axis.
    pub open spec fn inner_offset_y_spec(self) -> int {
        if self.maximized {
            0
        } else {
            BORDER_WIDTH + TITLEBAR_HEIGHT
        }
    }

    /// The same client with another maximize mode: geometry and metadata are
    /// untouched, and leaving maximized mode marks the decoration dirty.
    pub open spec fn with_maximized(self, maximized: bool) -> ClientView {
        if maximized == self.maximized {
            self
        } else {
            ClientView {
                maximized,
                need_redraw: if maximized {
                    self.need_redraw
                } else {
                    true
                },
                ..self
            }
        }
    }
}

/// The mathematical values of a sequence of clients.
pub open spec fn client_views(s: Seq<Client>) -> Seq<ClientView> {
    Seq::new(s.len(), |i: int| s[i]@)
}

/// The mathematical value of an optional string.
pub open spec fn opt_string_view(s: Option<String>) -> Option<Seq<char>> {
    match s {
        Some(x) => Some(x@),
        None => None,
    }
}

/// The mathematical value of an optional icon.
pub open spec fn opt_icon_view(ic: Option<Icon>) -> Option<IconView> {
    match ic {
        Some(x) => Some(x@),
        None => None,
    }
}

/// The commands that reposition a client's container after its x changed.
pub open spec fn set_x_cmds(c: ClientView) -> Seq<Command> {
    if c.maximized {
        Seq::empty()
    } else {
        seq![Command::SetWindowX(c.container_id, (c.x - BORDER_WIDTH) as i16)]
    }
}

/// The commands that reposition a client's container after its y changed.
pub open spec fn set_y_cmds(c: ClientView) -> Seq<Command> {
    if c.maximized {
        Seq::empty()
    } else {
        seq![Command::SetWindowY(c.container_id, (c.y - BORDER_WIDTH - TITLEBAR_HEIGHT) as i16)]
    }
}

/// The commands that resize content, container and decoration surface after
/// a client's size changed.
pub open spec fn set_size_cmds(c: ClientView, screen: ScreenInfo) -> Seq<Command> {
    if c.maximized {
        Seq::empty()
    } else {
        seq![
            Command::SetWindowWidth(c.id, c.width),
            Command::SetWindowHeight(c.id, c.height),
            Command::SetWindowWidth(c.container_id, c.container_width_spec(screen) as u16),
            Command::SetWindowHeight(c.container_id, c.container_height_spec(screen) as u16),
            Command::ResizeDecoration {
                container_id: c.container_id,
                width: c.container_width_spec(screen) as u16,
                height: c.container_height_spec(screen) as u16,
            },
        ]
    }
}

/// The commands that apply the new layout policy when a client's maximize
/// mode flips; `c` is the client after the flip.
pub open spec fn set_maximized_cmds(c: ClientView, screen: ScreenInfo) -> Seq<Command> {
    seq![
        Command::SetWindowX(c.id, c.inner_offset_x_spec() as i16),
        Command::SetWindowY(c.id, c.inner_offset_y_spec() as i16),
        Command::SetWindowX(c.container_id, c.container_x_spec() as i16),
        Command::SetWindowY(c.container_id, c.container_y_spec() as i16),
        Command::SetWindowWidth(c.container_id, c.container_width_spec(screen) as u16),
        Command::SetWindowHeight(c.container_id, c.container_height_spec(screen) as u16),
        Command::SetWindowWidth(
            c.id,
            if c.maximized {
                c.container_width_spec(screen) as u16
            } else {
                c.width
            },
        ),
        Command::SetWindowHeight(
            c.id,
            if c.maximized {
                c.container_height_spec(screen) as u16
            } else {
                c.height
            },
        ),
        if c.maximized {
            Command::UngrabContainerButtons(c.container_id)
        } else {
            Command::GrabContainerButtons(c.container_id)
        },
    ]
}

/// The commands that set a new client's windows up: create and populate the
/// container, grab the click-to-raise buttons, and watch properties.
pub open spec fn init_cmds(c: ClientView, screen: ScreenInfo) -> Seq<Command> {
    seq![
        Command::CreateContainer {
            container_id: c.container_id,
            x: c.container_x_spec() as i16,
            y: c.container_y_spec() as i16,
            width: c.container_width_spec(screen) as u16,
            height: c.container_height_spec(screen) as u16,
        },
    ] + (if c.maximized {
        Seq::<Command>::empty()
    } else {
        seq![Command::GrabContainerButtons(c.container_id)]
    }) + seq![
        Command::AddToSaveSet(c.id),
        Command::ReparentWindow {
            window: c.id,
            container_id: c.container_id,
            offset_x: c.inner_offset_x_spec() as i16,
            offset_y: c.inner_offset_y_spec() as i16,
        },
        Command::GrabContentButtons(c.id),
        Command::WatchProperties(c.id),
        Command::SetWindowBorderWidth(c.id, 0),
        Command::PutWmState(c.id),
        Command::ResizeDecoration {
            container_id: c.container_id,
            width: c.container_width_spec(screen) as u16,
            height: c.container_height_spec(screen) as u16,
        },
    ]
}

/// The commands that give a window back when it stops being managed: the
/// content returns to the root at its recorded position and only the
/// container is destroyed.
pub open spec fn release_cmds(c: ClientView) -> Seq<Command> {
    seq![
        Command::ReparentToRoot { window: c.id, x: c.x, y: c.y },
        Command::RemoveFromSaveSet(c.id),
        Command::DestroyWindow(c.container_id),
    ]
}

/// A request to repaint one client's decoration.
#[derive(Clone, Copy, PartialEq, Eq, Structural, Debug)]
pub struct RedrawRequest {
    pub container_id: u32,
    pub is_active: bool,
}

impl Client {
    /// A freshly managed client, marked dirty, with the commands that set
    /// its windows up.
    pub fn new(
        id: u32,
        container_id: u32,
        x: i16,
        y: i16,
        width: u16,
        height: u16,
        maximized: bool,
        class: Option<String>,
        title: Option<String>,
        icon: Option<Icon>,
        screen: ScreenInfo,
        cmds: &mut Vec<Command>,
    ) -> (c: Client)
        requires
            screen.wf(),
            x >= MIN_CLIENT_X,
            y >= MIN_CLIENT_Y,
            width <= MAX_CLIENT_WIDTH,
            height <= MAX_CLIENT_HEIGHT,
        ensures
            c@.wf(),
            c.id == id,
            c.container_id == container_id,
            c.x == x,
            c.y == y,
            c.width == width,
            c.height == height,
            c.maximized == maximized,
            c.need_redraw == true,
            c@.class == (match class {
                Some(s) => Some(s@),
                None => None::<Seq<char>>,
            }),
            c@.title == (match title {
                Some(s) => Some(s@),
                None => None::<Seq<char>>,
            }),
            c@.icon == (match icon {
                Some(ic) => Some(ic@),
                None => None::<IconView>,
            }),
            final(cmds)@ == old(cmds)@ + init_cmds(c@, screen),
    {
        let c = Client {
            id,
            container_id,
            x,
            y,
            width,
            height,
            maximized,
            need_redraw: true,
            class,
            title,
            icon,
        };

        cmds.push(Command::CreateContainer {
            container_id,
            x: c.container_x(),
            y: c.container_y(),
            width: c.container_width(screen),
            height: c.container_height(screen),
        });

        if !c.maximized {
            cmds.push(Command::GrabContainerButtons(container_id));
        }

        cmds.push(Command::AddToSaveSet(id));
        cmds.push(Command::ReparentWindow {
            window: id,
            container_id,
            offset_x: c.inner_offset_x(),
            offset_y: c.inner_offset_y(),
        });
        cmds.push(Command::GrabContentButtons(id));
        cmds.push(Command::WatchProperties(id));
        cmds.push(Command::SetWindowBorderWidth(id, 0));
        cmds.push(Command::PutWmState(id));
        cmds.push(Command::ResizeDecoration {
            container_id,
            width: c.container_width(screen),
            height: c.container_height(screen),
        });

        proof {
            assert(cmds@ =~= old(cmds)@ + init_cmds(c@, screen));
        }

        c
    }

    pub fn container_x(&self) -> (r: i16)
        requires
            self@.wf(),
        ensures
            r == self@.container_x_spec(),
    {
        if self.maximized {
            0
        } else {
            self.x - BORDER_WIDTH as i16
        }
    }

    pub fn container_y(&self) -> (r: i16)
        requires
            self@.wf(),
        ensures
            r == self@.container_y_spec(),
    {
        if self.maximized {
            TOP_PANEL_HEIGHT as i16
        } else {
            self.y - BORDER_WIDTH as i16 - TITLEBAR_HEIGHT as i16
        }
    }

    pub fn container_width(&self, screen: ScreenInfo) -> (r: u16)
        requires
            self@.wf(),
            screen.wf(),
        ensures
            r == self@.container_width_spec(screen),
    {
        if self.maximized {
            screen.width
        } else {
            self.width + BORDER_WIDTH * 2
        }
    }

    pub fn container_height(&self, screen: ScreenInfo) -> (r: u16)
        requires
            self@.wf(),
            screen.wf(),
        ensures
            r == self@.container_height_spec(screen),
    {
        if self.maximized {
            screen.usable_height()
        } else {
            self.height + BORDER_WIDTH * 2 + TITLEBAR_HEIGHT
        }
    }

    pub fn inner_offset_x(&self) -> (r: i16)
        ensures
            r == self@.inner_offset_x_spec(),
    {
        if self.maximized {
            0
        } else {
            BORDER_WIDTH as i16
        }
    }

    pub fn inner_offset_y(&self) -> (r: i16)
        ensures
            r == self@.inner_offset_y_spec(),
    {
        if self.maximized {
            0
        } else {
            (BORDER_WIDTH + TITLEBAR_HEIGHT) as i16
        }
    }

    /// Move the content to `x` and reposition the container accordingly;
    /// a maximized client only records the value.
    pub fn set_x(&mut self, x: i16, cmds: &mut Vec<Command>)
        requires
            old(self)@.wf(),
            x >= MIN_CLIENT_X,
        ensures
            final(self)@ == (ClientView { x, ..old(self)@ }),
            final(self)@.wf(),
            final(cmds)@ == old(cmds)@ + set_x_cmds(final(self)@),
    {
        self.x = x;

        if !self.maximized {
            let v = self.container_x();
            cmds.push(Command::SetWindowX(self.container_id, v));
        }

        proof {
            assert(cmds@ =~= old(cmds)@ + set_x_cmds(self@));
        }
    }

    /// Move the content to `y` and reposition the container accordingly;
    /// a maximized client only records the value.
    pub fn set_y(&mut self, y: i16, cmds: &mut Vec<Command>)
        requires
            old(self)@.wf(),
            y >= MIN_CLIENT_Y,
        ensures
            final(self)@ == (ClientView { y, ..old(self)@ }),
            final(self)@.wf(),
            final(cmds)@ == old(cmds)@ + set_y_cmds(final(self)@),
    {
        self.y = y;

        if !self.maximized {
            let v = self.container_y();
            cmds.push(Command::SetWindowY(self.container_id, v));
        }

        proof {
            assert(cmds@ =~= old(cmds)@ + set_y_cmds(self@));
        }
    }

    /// Record a new content size; a non-maximized client also resizes its
    /// windows and decoration and becomes dirty, a maximized client keeps
    /// its policy-derived visible geometry.
    pub fn set_size(&mut self, width: u16, height: u16, screen: ScreenInfo, cmds: &mut Vec<
        Command,
    >)
        requires
            old(self)@.wf(),
            screen.wf(),
            width <= MAX_CLIENT_WIDTH,
            height <= MAX_CLIENT_HEIGHT,
        ensures
            final(self)@ == (ClientView {
                width,
                height,
                need_redraw: old(self)@.need_redraw || !old(self)@.maximized,
                ..old(self)@
            }),
            final(self)@.wf(),
            final(cmds)@ == old(cmds)@ + set_size_cmds(final(self)@, screen),
    {
        self.width = width;
        self.height = height;

        if !self.maximized {
            cmds.push(Command::SetWindowWidth(self.id, width));
            cmds.push(Command::SetWindowHeight(self.id, height));
            let cw = self.container_width(screen);
            let ch = self.container_height(screen);
            cmds.push(Command::SetWindowWidth(self.container_id, cw));
            cmds.push(Command::SetWindowHeight(self.container_id, ch));
            cmds.push(Command::ResizeDecoration {
                container_id: self.container_id,
                width: cw,
                height: ch,
            });
            self.need_redraw = true;
        }

        proof {
            assert(cmds@ =~= old(cmds)@ + set_size_cmds(self@, screen));
        }
    }

    /// Flip the layout policy: reposition and resize both windows for the
    /// new mode and re-enable the move/resize grabs only when leaving
    /// maximized mode.  Setting the current mode again is a no-op.
    pub fn set_maximized(&mut self, maximized: bool, screen: ScreenInfo, cmds: &mut Vec<Command>)
        requires
            old(self)@.wf(),
            screen.wf(),
        ensures
            final(self)@ == old(self)@.with_maximized(maximized),
            final(self)@.wf(),
            final(cmds)@ == old(cmds)@ + (if maximized == old(self)@.maximized {
                Seq::<Command>::empty()
            } else {
                set_maximized_cmds(final(self)@, screen)
            }),
    {
        if maximized == self.maximized {
            proof {
                assert(cmds@ =~= old(cmds)@ + Seq::<Command>::empty());
            }
            return ;
        }

        self.maximized = maximized;

        let iox = self.inner_offset_x();
        let ioy = self.inner_offset_y();
        cmds.push(Command::SetWindowX(self.id, iox));
        cmds.push(Command::SetWindowY(self.id, ioy));

        let cx = self.container_x();
        let cy = self.container_y();
        cmds.push(Command::SetWindowX(self.container_id, cx));
        cmds.push(Command::SetWindowY(self.container_id, cy));

        let cw = self.container_width(screen);
        let ch = self.container_height(screen);
        cmds.push(Command::SetWindowWidth(self.container_id, cw));
        cmds.push(Command::SetWindowHeight(self.container_id, ch));

        let width = if maximized {
            cw
        } else {
            self.width
        };

        let height = if maximized {
            ch
        } else {
            self.height
        };

        cmds.push(Command::SetWindowWidth(self.id, width));
        cmds.push(Command::SetWindowHeight(self.id, height));

        if maximized {
            cmds.push(Command::UngrabContainerButtons(self.container_id));
        } else {
            self.need_redraw = true;
            cmds.push(Command::GrabContainerButtons(self.container_id));
        }

        proof {
            assert(cmds@ =~= old(cmds)@ + set_maximized_cmds(self@, screen));
        }
    }

    /// Record a new class; only external labels change, so nothing is
    /// marked dirty.
    pub fn set_class(&mut self, class: Option<String>)
        ensures
            final(self)@ == (ClientView {
                class: match class {
                    Some(ref s) => Some(s@),
                    None => None::<Seq<char>>,
                },
                ..old(self)@
            }),
    {
        self.class = class;
    }

    /// Record a new title and mark the decoration dirty.
    pub fn set_title(&mut self, title: Option<String>)
        ensures
            final(self)@ == (ClientView {
                title: match title {
                    Some(ref s) => Some(s@),
                    None => None::<Seq<char>>,
                },
                need_redraw: true,
                ..old(self)@
            }),
    {
        self.title = title;
        self.need_redraw = true;
    }

    /// Record a new icon and mark the decoration dirty.
    pub fn set_icon(&mut self, icon: Option<Icon>)
        ensures
            final(self)@ == (ClientView {
                icon: match icon {
                    Some(ref ic) => Some(ic@),
                    None => None::<IconView>,
                },
                need_redraw: true,
                ..old(self)@
            }),
    {
        self.icon = icon;
        self.need_redraw = true;
    }

    /// Mark the decoration dirty.
    pub fn notify(&mut self)
        ensures
            final(self)@ == (ClientView { need_redraw: true, ..old(self)@ }),
    {
        self.need_redraw = true;
    }

    /// Hand out a repaint request if the decoration is dirty; a maximized
    /// client has no decoration and is never repainted.
    pub fn request_redraw(&mut self, is_active: bool) -> (r: Option<RedrawRequest>)
        ensures
            if old(self)@.need_redraw && !old(self)@.maximized {
                final(self)@ == (ClientView { need_redraw: false, ..old(self)@ }) && r == Some(
                    RedrawRequest { container_id: old(self)@.container_id, is_active },
                )
            } else {
                final(self)@ == old(self)@ && r is None
            },
    {
        if !self.need_redraw || self.maximized {
            return None;
        }

        self.need_redraw = false;

        Some(RedrawRequest { container_id: self.container_id, is_active })
    }

    pub fn id(&self) -> (r: u32)
        ensures
            r == self@.id,
    {
        self.id
    }

    pub fn container_id(&self) -> (r: u32)
        ensures
            r == self@.container_id,
    {
        self.container_id
    }

    pub fn x(&self) -> (r: i16)
        ensures
            r == self@.x,
    {
        self.x
    }

    pub fn y(&self) -> (r: i16)
        ensures
            r == self@.y,
    {
        self.y
    }

    pub fn width(&self) -> (r: u16)
        ensures
            r == self@.width,
    {
        self.width
    }

    pub fn height(&self) -> (r: u16)
        ensures
            r == self@.height,
    {
        self.height
    }

    pub fn maximized(&self) -> (r: bool)
        ensures
            r == self@.maximized,
    {
        self.maximized
    }

    pub fn class(&self) -> (r: &Option<String>)
        ensures
            opt_string_view(*r) == self@.class,
    {
        &self.class
    }

    pub fn title(&self) -> (r: &Option<String>)
        ensures
            opt_string_view(*r) == self@.title,
    {
        &self.title
    }

    pub fn icon(&self) -> (r: &Option<Icon>)
        ensures
            opt_icon_view(*r) == self@.icon,
    {
        &self.icon
    }

    /// The commands that give this client's window back to the root.
    pub fn release_commands(&self, cmds: &mut Vec<Command>)
        ensures
            final(cmds)@ == old(cmds)@ + release_cmds(self@),
    {
        cmds.push(Command::ReparentToRoot { window: self.id, x: self.x, y: self.y });
        cmds.push(Command::RemoveFromSaveSet(self.id));
        cmds.push(Command::DestroyWindow(self.container_id));

        proof {
            assert(cmds@ =~= old(cmds)@ + release_cmds(self@));
        }
    }
}

/// Toggling the maximize mode twice returns the recorded content geometry
/// unchanged: the mode only ever switches which layout policy is applied,
/// never the recorded values.
pub proof fn lemma_toggle_maximized_twice(c: ClientView)
    ensures
        c.with_maximized(!c.maximized).with_maximized(c.maximized).x == c.x,
        c.with_maximized(!c.maximized).with_maximized(c.maximized).y == c.y,
        c.with_maximized(!c.maximized).with_maximized(c.maximized).width == c.width,
        c.with_maximized(!c.maximized).with_maximized(c.maximized).height == c.height,
        c.with_maximized(!c.maximized).with_maximized(c.maximized).maximized == c.maximized,
{
}

} // verus!
