//! Where windows go on the screens, and the frames that the system may draw around them.
use vstd::prelude::*;

verus! {

/// A rectangle of the screen.
#[derive(Clone, Copy, Debug, PartialEq, Eq, Structural)]
pub struct Bounds {
    pub left: i32,
    pub top: i32,
    pub right: i32,
    pub bottom: i32,
}

/// A screen: where it begins, and its size.
#[derive(Clone, Copy, Debug, PartialEq, Eq, Structural)]
pub struct Monitor {
    pub x: i32,
    pub y: i32,
    pub width: u32,
    pub height: u32,
}

/// How far the window for reminders stays from the edges of the screen.
pub const REMINDER_MARGIN: i64 = 24;

/// How much of the widget has to reach onto a screen for its place to count as visible.
pub const VISIBLE_PART: i64 = 80;

/// How far the widget stays from the right edge of the screen where it is put at first.
pub const WIDGET_RIGHT_MARGIN: i64 = 28;

/// How far the widget stays from the top edge of the screen where it is put at first.
pub const WIDGET_TOP_MARGIN: i64 = 44;

/// Whether coordinates can be given to the system.
pub open spec fn placeable(x: int, y: int) -> bool {
    i32::MIN <= x <= i32::MAX && i32::MIN <= y <= i32::MAX
}

/// A place, if it can be given to the system.
fn place(x: i64, y: i64) -> (r: Option<(i32, i32)>)
    ensures
        match r {
            Some((a, b)) => a == x && b == y,
            None => !placeable(x as int, y as int),
        },
{
    if x < i32::MIN as i64 || x > i32::MAX as i64 || y < i32::MIN as i64 || y > i32::MAX as i64 {
        None
    } else {
        Some((x as i32, y as i32))
    }
}

/// The upper right corner of a screen for a window of the given width.
pub open spec fn reminder_place(monitor: Monitor, width: u32) -> (int, int) {
    (
        monitor.x + (if monitor.width >= width {
            monitor.width - width
        } else {
            0
        }) - REMINDER_MARGIN,
        monitor.y + REMINDER_MARGIN,
    )
}

/// Where the window for reminders goes: to the upper right corner of the screen.
pub fn reminder_position(monitor: &Monitor, width: u32) -> (r: Option<(i32, i32)>)
    ensures
        ({
            let (x, y) = reminder_place(*monitor, width);
            match r {
                Some((a, b)) => a == x && b == y,
                None => !placeable(x, y),
            }
        }),
{
    let room: i64 = if monitor.width >= width {
        monitor.width as i64 - width as i64
    } else {
        0
    };
    place(
        monitor.x as i64 + room - REMINDER_MARGIN,
        monitor.y as i64 + REMINDER_MARGIN,
    )
}

/// Whether a window that begins at `(x, y)` can be seen on the screen.
pub open spec fn seen_on(monitor: Monitor, x: i32, y: i32) -> bool {
    &&& x + VISIBLE_PART > monitor.x
    &&& y + VISIBLE_PART > monitor.y
    &&& x < monitor.x + monitor.width
    &&& y < monitor.y + monitor.height
}

/// Whether a window that begins at `(x, y)` can be seen on one of the screens.
pub open spec fn seen(monitors: Seq<Monitor>, x: i32, y: i32) -> bool {
    exists|i: int| 0 <= i < monitors.len() && #[trigger] seen_on(monitors[i], x, y)
}

/// The saved place of the widget, if it can be seen on one of the screens.
pub fn saved_position(x: Option<i32>, y: Option<i32>, monitors: &Vec<Monitor>) -> (r: Option<
    (i32, i32),
>)
    ensures
        match r {
            Some((a, b)) => x == Some(a) && y == Some(b) && seen(monitors@, a, b),
            None => x is None || y is None || !seen(monitors@, x.unwrap(), y.unwrap()),
        },
{
    let (a, b) = match (x, y) {
        (Some(a), Some(b)) => (a, b),
        _ => {
            return None;
        },
    };
    let mut i: usize = 0;
    while i < monitors.len()
        invariant
            x == Some(a),
            y == Some(b),
            i <= monitors@.len(),
            forall|k: int| 0 <= k < i ==> !#[trigger] seen_on(monitors@[k], a, b),
        decreases monitors@.len() - i,
    {
        let m = &monitors[i];
        if a as i64 + VISIBLE_PART > m.x as i64 && b as i64 + VISIBLE_PART > m.y as i64 && (a as i64)
            < m.x as i64 + m.width as i64 && (b as i64) < m.y as i64 + m.height as i64 {
            assert(seen_on(monitors@[i as int], a, b));
            assert(seen(monitors@, a, b));
            return Some((a, b));
        }
        i = i + 1;
    }
    None
}

/// Where the widget is put at first: near the upper right corner of the screen.
pub open spec fn first_place(monitor: Monitor, width: u32) -> (int, int) {
    (
        monitor.x + monitor.width - width - WIDGET_RIGHT_MARGIN,
        monitor.y + WIDGET_TOP_MARGIN,
    )
}

/// Where the widget is put at first.
pub fn first_position(monitor: &Monitor, width: u32) -> (r: Option<(i32, i32)>)
    ensures
        ({
            let (x, y) = first_place(*monitor, width);
            match r {
                Some((a, b)) => a == x && b == y,
                None => !placeable(x, y),
            }
        }),
{
    place(
        monitor.x as i64 + monitor.width as i64 - width as i64 - WIDGET_RIGHT_MARGIN,
        monitor.y as i64 + WIDGET_TOP_MARGIN,
    )
}

/// A place that was saved, where it can be seen, is where the widget goes.
pub proof fn a_place_on_the_screen_is_kept(monitor: Monitor, x: i32, y: i32)
    requires
        monitor.x <= x < monitor.x + monitor.width,
        monitor.y <= y < monitor.y + monitor.height,
    ensures
        seen_on(monitor, x, y),
{
}

/// Styles of a window, as the system numbers them.
pub const STYLE_POPUP: u32 = 0x8000_0000;

pub const STYLE_CHILD: u32 = 0x4000_0000;

pub const STYLE_BORDER: u32 = 0x0080_0000;

pub const STYLE_DIALOG_FRAME: u32 = 0x0040_0000;

pub const STYLE_CAPTION: u32 = 0x00C0_0000;

pub const STYLE_SYSTEM_MENU: u32 = 0x0008_0000;

pub const STYLE_THICK_FRAME: u32 = 0x0004_0000;

pub const STYLE_MINIMIZE_BOX: u32 = 0x0002_0000;

pub const STYLE_MAXIMIZE_BOX: u32 = 0x0001_0000;

/// Further styles of a window.
pub const EXTENDED_DIALOG_FRAME: u32 = 0x0000_0001;

pub const EXTENDED_TOOL_WINDOW: u32 = 0x0000_0080;

pub const EXTENDED_WINDOW_EDGE: u32 = 0x0000_0100;

pub const EXTENDED_CLIENT_EDGE: u32 = 0x0000_0200;

pub const EXTENDED_STATIC_EDGE: u32 = 0x0002_0000;

pub const EXTENDED_NO_ACTIVATE: u32 = 0x0800_0000;

/// The styles with which the system draws a frame.
pub const FRAME: u32 = STYLE_THICK_FRAME | STYLE_BORDER | STYLE_DIALOG_FRAME | STYLE_MINIMIZE_BOX
    | STYLE_MAXIMIZE_BOX | STYLE_SYSTEM_MENU;

/// The further styles with which the system draws an edge.
pub const EDGES: u32 = EXTENDED_DIALOG_FRAME | EXTENDED_WINDOW_EDGE | EXTENDED_CLIENT_EDGE
    | EXTENDED_STATIC_EDGE;

/// What a window is to the system.
#[derive(Clone, Copy, Debug, PartialEq, Eq, Structural)]
pub enum Role {
    /// On its own, never active, not among the programs: the window of a reminder, and the widget
    /// of the main program.
    Quiet,
    /// The widget on its own.
    Floating,
    /// The widget as a part of the desktop.
    OnDesktop,
}

/// The style bit that makes a window stand on its own or in another.
pub open spec fn role_bit(role: Role) -> u32 {
    if role is OnDesktop {
        STYLE_CHILD
    } else {
        STYLE_POPUP
    }
}

/// A style without frame, in the given role: every other style stays.
pub open spec fn frameless(style: u32, role: Role) -> u32 {
    match role {
        Role::Quiet => (style & !(STYLE_CHILD | STYLE_CAPTION | FRAME)) | STYLE_POPUP,
        Role::Floating => (style & !(STYLE_CHILD | STYLE_POPUP | FRAME)) | STYLE_POPUP,
        Role::OnDesktop => (style & !(STYLE_CHILD | STYLE_POPUP | FRAME)) | STYLE_CHILD,
    }
}

/// A further style without edges, in the given role.
pub open spec fn edgeless(style: u32, role: Role) -> u32 {
    match role {
        Role::Quiet => (style & !EDGES) | EXTENDED_NO_ACTIVATE | EXTENDED_TOOL_WINDOW,
        _ => style & !EDGES,
    }
}

/// A style without frame, in the given role.
pub fn frameless_style(style: u32, role: Role) -> (r: u32)
    ensures
        r == frameless(style, role),
{
    match role {
        Role::Quiet => (style & !(STYLE_CHILD | STYLE_CAPTION | FRAME)) | STYLE_POPUP,
        Role::Floating => (style & !(STYLE_CHILD | STYLE_POPUP | FRAME)) | STYLE_POPUP,
        Role::OnDesktop => (style & !(STYLE_CHILD | STYLE_POPUP | FRAME)) | STYLE_CHILD,
    }
}

/// A further style without edges, in the given role.
pub fn edgeless_style(style: u32, role: Role) -> (r: u32)
    ensures
        r == edgeless(style, role),
{
    match role {
        Role::Quiet => (style & !EDGES) | EXTENDED_NO_ACTIVATE | EXTENDED_TOOL_WINDOW,
        _ => style & !EDGES,
    }
}

/// A window whose frame was taken away has none, is what it is to be, keeps its other styles, and
/// needs no further change.
pub proof fn a_frameless_window_stays_frameless(style: u32, role: Role)
    ensures
        frameless(style, role) & FRAME == 0,
        frameless(style, role) & role_bit(role) == role_bit(role),
        frameless(style, role) & (STYLE_CHILD | STYLE_POPUP) == role_bit(role),
        frameless(style, role) & !(STYLE_CHILD | STYLE_POPUP | FRAME) == style & !(STYLE_CHILD
            | STYLE_POPUP | FRAME),
        frameless(frameless(style, role), role) == frameless(style, role),
        edgeless(style, role) & EDGES == 0,
        edgeless(edgeless(style, role), role) == edgeless(style, role),
{
    match role {
        Role::Quiet => {
            assert(({
                let s = (style & !(0x4000_0000u32 | 0x00C0_0000 | 0x00CF_0000)) | 0x8000_0000u32;
                &&& s & 0x00CF_0000 == 0
                &&& s & 0xC000_0000 == 0x8000_0000
                &&& s & 0x8000_0000 == 0x8000_0000
                &&& s & !0xC0CF_0000u32 == style & !0xC0CF_0000u32
                &&& (s & !(0x4000_0000u32 | 0x00C0_0000 | 0x00CF_0000)) | 0x8000_0000u32 == s
            })) by (bit_vector);
            assert(({
                let e = (style & !0x0002_0301u32) | 0x0800_0000u32 | 0x0000_0080u32;
                &&& e & 0x0002_0301 == 0
                &&& (e & !0x0002_0301u32) | 0x0800_0000u32 | 0x0000_0080u32 == e
            })) by (bit_vector);
        },
        Role::Floating => {
            assert(({
                let s = (style & !(0x4000_0000u32 | 0x8000_0000 | 0x00CF_0000)) | 0x8000_0000u32;
                &&& s & 0x00CF_0000 == 0
                &&& s & 0xC000_0000 == 0x8000_0000
                &&& s & 0x8000_0000 == 0x8000_0000
                &&& s & !0xC0CF_0000u32 == style & !0xC0CF_0000u32
                &&& (s & !(0x4000_0000u32 | 0x8000_0000 | 0x00CF_0000)) | 0x8000_0000u32 == s
            })) by (bit_vector);
        },
        Role::OnDesktop => {
            assert(({
                let s = (style & !(0x4000_0000u32 | 0x8000_0000 | 0x00CF_0000)) | 0x4000_0000u32;
                &&& s & 0x00CF_0000 == 0
                &&& s & 0xC000_0000 == 0x4000_0000
                &&& s & 0x4000_0000 == 0x4000_0000
                &&& s & !0xC0CF_0000u32 == style & !0xC0CF_0000u32
                &&& (s & !(0x4000_0000u32 | 0x8000_0000 | 0x00CF_0000)) | 0x4000_0000u32 == s
            })) by (bit_vector);
        },
    }
    assert(({
        let e = style & !0x0002_0301u32;
        e & 0x0002_0301 == 0 && e & !0x0002_0301u32 == e
    })) by (bit_vector);
    assert(0x0004_0000u32 | 0x0080_0000 | 0x0040_0000 | 0x0002_0000 | 0x0001_0000 | 0x0008_0000
        == 0x00CF_0000u32 && 0x1u32 | 0x100 | 0x200 | 0x0002_0000 == 0x0002_0301u32
        && 0x4000_0000u32 | 0x8000_0000 == 0xC000_0000u32 && 0x4000_0000u32 | 0x8000_0000
        | 0x00CF_0000 == 0xC0CF_0000u32) by (bit_vector);
}

/// A message of the system to a window, as far as it is about the window's frame.
#[derive(Clone, Copy, Debug, PartialEq, Eq, Structural)]
pub enum FrameMessage {
    /// The size without frame is asked for, or the frame is to be painted.
    SizeOrPaint,
    /// The frame is to look active or not.
    Activate,
    /// The style is about to become this.
    Style(u32),
    /// The further style is about to become this.
    ExtendedStyle(u32),
    /// Anything else.
    Other,
}

/// What is done with a message.
#[derive(Clone, Copy, Debug, PartialEq, Eq, Structural)]
pub enum FrameReply {
    /// It is answered with this.
    Answer(i64),
    /// The style becomes this, and the message is passed on.
    Restyle(u32),
    /// It is passed on.
    Pass,
}

pub const MESSAGE_STYLE_CHANGING: u32 = 0x007C;

pub const MESSAGE_FRAME_SIZE: u32 = 0x0083;

pub const MESSAGE_FRAME_PAINT: u32 = 0x0085;

pub const MESSAGE_FRAME_ACTIVATE: u32 = 0x0086;

/// Which of a window's numbers holds its style, and which its further style.
pub const INDEX_STYLE: i32 = -16;

pub const INDEX_EXTENDED_STYLE: i32 = -20;

/// What a message is about. `index` and `style` are what comes with it, where something comes.
pub open spec fn frame_message_of(message: u32, index: i32, style: Option<u32>) -> FrameMessage {
    if message == MESSAGE_FRAME_SIZE || message == MESSAGE_FRAME_PAINT {
        FrameMessage::SizeOrPaint
    } else if message == MESSAGE_FRAME_ACTIVATE {
        FrameMessage::Activate
    } else if message == MESSAGE_STYLE_CHANGING && style is Some {
        if index == INDEX_STYLE {
            FrameMessage::Style(style.unwrap())
        } else if index == INDEX_EXTENDED_STYLE {
            FrameMessage::ExtendedStyle(style.unwrap())
        } else {
            FrameMessage::Other
        }
    } else {
        FrameMessage::Other
    }
}

/// What is done with a message to a window in the given role, so that no frame is drawn.
pub open spec fn reply_to(
    message: u32,
    index: i32,
    style: Option<u32>,
    role: Role,
) -> FrameReply {
    match frame_message_of(message, index, style) {
        FrameMessage::SizeOrPaint => FrameReply::Answer(0),
        FrameMessage::Activate => FrameReply::Answer(1),
        FrameMessage::Style(s) => FrameReply::Restyle(frameless(s, role)),
        FrameMessage::ExtendedStyle(s) => FrameReply::Restyle(edgeless(s, role)),
        FrameMessage::Other => FrameReply::Pass,
    }
}

/// What is done with a message to a window in the given role, so that no frame is drawn.
pub fn frame_reply(message: u32, index: i32, style: Option<u32>, role: Role) -> (r: FrameReply)
    ensures
        r == reply_to(message, index, style, role),
{
    if message == MESSAGE_FRAME_SIZE || message == MESSAGE_FRAME_PAINT {
        return FrameReply::Answer(0);
    }
    if message == MESSAGE_FRAME_ACTIVATE {
        return FrameReply::Answer(1);
    }
    if message == MESSAGE_STYLE_CHANGING {
        if let Some(s) = style {
            if index == INDEX_STYLE {
                return FrameReply::Restyle(frameless_style(s, role));
            }
            if index == INDEX_EXTENDED_STYLE {
                return FrameReply::Restyle(edgeless_style(s, role));
            }
        }
    }
    FrameReply::Pass
}

/// What has to be set on a window so that it has no frame.
#[derive(Clone, Copy, Debug, PartialEq, Eq, Structural)]
pub struct Restyling {
    pub style: Option<u32>,
    pub extended: Option<u32>,
    /// Whether the system has to be told that the frame changed.
    pub frame_changed: bool,
}

/// What has to be set on a window with these styles so that it has no frame, in the given role:
/// only what differs.
pub open spec fn restyling(style: u32, extended: u32, role: Role) -> Restyling {
    Restyling {
        style: if style == frameless(style, role) {
            None
        } else {
            Some(frameless(style, role))
        },
        extended: if extended == edgeless(extended, role) {
            None
        } else {
            Some(edgeless(extended, role))
        },
        frame_changed: style != frameless(style, role) || extended != edgeless(extended, role),
    }
}

/// What has to be set on a window with these styles so that it has no frame, in the given role:
/// only what differs.
pub fn suppress_chrome(style: u32, extended: u32, role: Role) -> (r: Restyling)
    ensures
        r == restyling(style, extended, role),
{
    let wanted: u32 = frameless_style(style, role);
    let wanted_extended: u32 = edgeless_style(extended, role);
    Restyling {
        style: if style == wanted {
            None
        } else {
            Some(wanted)
        },
        extended: if extended == wanted_extended {
            None
        } else {
            Some(wanted_extended)
        },
        frame_changed: style != wanted || extended != wanted_extended,
    }
}

/// Whether the widget can be shown: it is what it is to be, it has no frame, and its shape was cut
/// out.
pub open spec fn is_ready(style: u32, on_desktop: bool, has_parent: bool, has_region: bool) -> bool {
    &&& if on_desktop {
        style & STYLE_CHILD != 0 && has_parent
    } else {
        style & STYLE_POPUP != 0 && style & STYLE_CHILD == 0
    }
    &&& style & FRAME == 0
    &&& has_region
}

/// Whether the widget can be shown: it is what it is to be, it has no frame, and its shape was cut
/// out.
pub fn widget_ready(style: u32, on_desktop: bool, has_parent: bool, has_region: bool) -> (r: bool)
    ensures
        r == is_ready(style, on_desktop, has_parent, has_region),
{
    let role_ready: bool = if on_desktop {
        style & STYLE_CHILD != 0 && has_parent
    } else {
        style & STYLE_POPUP != 0 && style & STYLE_CHILD == 0
    };
    role_ready && style & FRAME == 0 && has_region
}

/// A widget whose frame was taken away can be shown once its shape was cut out.
pub proof fn a_frameless_widget_is_ready(style: u32, on_desktop: bool)
    ensures
        ({
            let role = if on_desktop {
                Role::OnDesktop
            } else {
                Role::Floating
            };
            let s = frameless(style, role);
            &&& s & FRAME == 0
            &&& on_desktop ==> s & STYLE_CHILD != 0
            &&& !on_desktop ==> s & STYLE_POPUP != 0 && s & STYLE_CHILD == 0
        }),
{
    a_frameless_window_stays_frameless(style, Role::OnDesktop);
    a_frameless_window_stays_frameless(style, Role::Floating);
    let s = frameless(style, Role::Floating);
    assert(s & (0x4000_0000u32 | 0x8000_0000) == 0x8000_0000 ==> s & 0x4000_0000 == 0)
        by (bit_vector);
}

/// Whether the shape of the widget has to be cut out anew: its size changed, or something else
/// replaced the shape. `region` is the box around the present shape, without the first row.
pub fn region_outdated(
    cached: Option<(u32, u32)>,
    size: (u32, u32),
    region: Option<Bounds>,
) -> (r: bool)
    ensures
        r == (cached != Some(size) || !(region matches Some(b) && b.left == 0 && b.top == 1
            && b.right == shortened(size.0) && b.bottom == shortened(size.1))),
{
    let known: bool = match cached {
        Some((width, height)) => width == size.0 && height == size.1,
        None => false,
    };
    let intact: bool = match region {
        Some(b) => b.left == 0 && b.top == 1 && b.right as i64 == shortened_length(size.0)
            && b.bottom as i64 == shortened_length(size.1),
        None => false,
    };
    !known || !intact
}

/// One less than a length, as the system gives it: as a signed number of 32 bits.
pub open spec fn shortened(length: u32) -> int {
    let n = if length == 0 {
        0
    } else {
        length - 1
    };
    if n > i32::MAX {
        n - 0x1_0000_0000
    } else {
        n
    }
}

/// One less than a length, as the system gives it.
fn shortened_length(length: u32) -> (r: i64)
    ensures
        r == shortened(length),
{
    let n: i64 = if length == 0 {
        0
    } else {
        length as i64 - 1
    };
    if n > i32::MAX as i64 {
        n - 0x1_0000_0000
    } else {
        n
    }
}

/// The size of a rectangle; nothing is narrower than zero.
pub fn client_size(bounds: &Bounds) -> (r: (u32, u32))
    ensures
        r.0 == (if bounds.right > bounds.left {
            bounds.right - bounds.left
        } else {
            0
        }),
        r.1 == (if bounds.bottom > bounds.top {
            bounds.bottom - bounds.top
        } else {
            0
        }),
{
    let width: i64 = bounds.right as i64 - bounds.left as i64;
    let height: i64 = bounds.bottom as i64 - bounds.top as i64;
    (
        if width > 0 {
            width as u32
        } else {
            0
        },
        if height > 0 {
            height as u32
        } else {
            0
        },
    )
}

/// A part of a picture, as parts of its width and height.
#[derive(Clone, Copy, Debug, PartialEq, Eq, Structural)]
pub struct PictureArea {
    pub left: i64,
    pub right: i64,
    pub width: i64,
    pub top: i64,
    pub bottom: i64,
    pub height: i64,
}

/// The part of the wallpaper behind a window: the left edge lies at `left / width` of it, and so
/// on.
pub fn wallpaper_area(window: &Bounds, monitor: &Bounds) -> (r: PictureArea)
    ensures
        r.left == window.left - monitor.left,
        r.right == window.right - monitor.left,
        r.width == (if monitor.right > monitor.left {
            monitor.right - monitor.left
        } else {
            1
        }),
        r.top == window.top - monitor.top,
        r.bottom == window.bottom - monitor.top,
        r.height == (if monitor.bottom > monitor.top {
            monitor.bottom - monitor.top
        } else {
            1
        }),
{
    let width: i64 = monitor.right as i64 - monitor.left as i64;
    let height: i64 = monitor.bottom as i64 - monitor.top as i64;
    PictureArea {
        left: window.left as i64 - monitor.left as i64,
        right: window.right as i64 - monitor.left as i64,
        width: if width > 0 {
            width
        } else {
            1
        },
        top: window.top as i64 - monitor.top as i64,
        bottom: window.bottom as i64 - monitor.top as i64,
        height: if height > 0 {
            height
        } else {
            1
        },
    }
}

/// A place on the screen as a place in the window at `parent`.
pub fn place_in_parent(x: i32, y: i32, parent: Option<Bounds>) -> (r: Option<(i32, i32)>)
    ensures
        match parent {
            None => r == Some((x, y)),
            Some(p) => match r {
                Some((a, b)) => a == x - p.left && b == y - p.top,
                None => !placeable(x - p.left, y - p.top),
            },
        },
{
    match parent {
        None => Some((x, y)),
        Some(p) => place(x as i64 - p.left as i64, y as i64 - p.top as i64),
    }
}

/// A step of putting the widget onto the desktop.
#[derive(Clone, Copy, Debug, PartialEq, Eq, Structural)]
pub enum AttachStep {
    /// To take the frame away in the role of a part of the desktop, and to set the parent.
    Enter,
    /// To place the window in its parent: left edge, top edge, width and height.
    Move(i64, i64, i64, i64),
    /// To give the window its former role.
    Leave,
    /// To take the window out of its parent, give it its former role, and put it back to where it
    /// was: left edge, top edge, width and height.
    Restore(i32, i32, i64, i64),
    /// Nothing: the widget is a part of the desktop.
    Attached,
}

/// What happened while the widget was put onto the desktop.
#[derive(Clone, Copy, Debug, PartialEq, Eq, Structural)]
pub enum AttachEvent {
    /// The places of window and desktop were read.
    Measured,
    /// The parent was set, or the system did not keep it.
    Parented(bool),
    /// The window was placed, or the system refused that.
    Placed(bool),
}

/// A length that is at least one.
pub open spec fn positive(length: int) -> int {
    if length > 1 {
        length
    } else {
        1
    }
}

/// A length that is at least one.
fn positive_length(length: i64) -> (r: i64)
    ensures
        r == positive(length as int),
{
    if length > 1 {
        length
    } else {
        1
    }
}

/// The next step of putting the widget onto the desktop.
pub open spec fn attach_after(window: Bounds, desktop: Bounds, event: AttachEvent) -> AttachStep {
    match event {
        AttachEvent::Measured => AttachStep::Enter,
        AttachEvent::Parented(true) => AttachStep::Move(
            (window.left - desktop.left) as i64,
            (window.top - desktop.top) as i64,
            positive(window.right - window.left) as i64,
            positive(window.bottom - window.top) as i64,
        ),
        AttachEvent::Parented(false) => AttachStep::Leave,
        AttachEvent::Placed(true) => AttachStep::Attached,
        AttachEvent::Placed(false) => AttachStep::Restore(
            window.left,
            window.top,
            positive(window.right - window.left) as i64,
            positive(window.bottom - window.top) as i64,
        ),
    }
}

/// The next step of putting the widget onto the desktop. It is never left half attached: what
/// fails after the first step is undone.
pub fn attach_step(window: &Bounds, desktop: &Bounds, event: AttachEvent) -> (r: AttachStep)
    ensures
        r == attach_after(*window, *desktop, event),
{
    let width: i64 = positive_length(window.right as i64 - window.left as i64);
    let height: i64 = positive_length(window.bottom as i64 - window.top as i64);
    match event {
        AttachEvent::Measured => AttachStep::Enter,
        AttachEvent::Parented(kept) => if kept {
            AttachStep::Move(
                window.left as i64 - desktop.left as i64,
                window.top as i64 - desktop.top as i64,
                width,
                height,
            )
        } else {
            AttachStep::Leave
        },
        AttachEvent::Placed(done) => if done {
            AttachStep::Attached
        } else {
            AttachStep::Restore(window.left, window.top, width, height)
        },
    }
}

/// The window for reminders stands in the upper right corner of the screen, 24 from its edges, where
/// it is no wider than the screen; the widget stands there at first, 28 from the right and 44 from
/// the top.
pub proof fn windows_keep_their_distance_to_the_edges(monitor: Monitor, width: u32)
    ensures
        width <= monitor.width ==> reminder_place(monitor, width).0 + width + 24 == monitor.x
            + monitor.width,
        width > monitor.width ==> reminder_place(monitor, width).0 == monitor.x - 24,
        reminder_place(monitor, width).1 == monitor.y + 24,
        first_place(monitor, width).0 + width + 28 == monitor.x + monitor.width,
        first_place(monitor, width).1 == monitor.y + 44,
{
}

/// A place counts as visible exactly when a square of 80 that begins there shares a point with the
/// screen.
pub proof fn a_visible_place_reaches_onto_the_screen(monitor: Monitor, x: i32, y: i32, p: (int, int))
    ensures
        x <= p.0 < x + 80 && y <= p.1 < y + 80 && monitor.x <= p.0 < monitor.x + monitor.width
            && monitor.y <= p.1 < monitor.y + monitor.height ==> seen_on(monitor, x, y),
        seen_on(monitor, x, y) ==> ({
            let a = if x > monitor.x {
                x as int
            } else {
                monitor.x as int
            };
            let b = if y > monitor.y {
                y as int
            } else {
                monitor.y as int
            };
            &&& x <= a < x + 80 && y <= b < y + 80
            &&& monitor.width > 0 && monitor.height > 0 ==> monitor.x <= a < monitor.x
                + monitor.width && monitor.y <= b < monitor.y + monitor.height
        }),
{
}

/// A saved place is visible when it is so on one of the screens, whatever the others are.
pub proof fn one_screen_is_enough(monitors: Seq<Monitor>, more: Monitor, x: i32, y: i32)
    ensures
        seen(monitors.push(more), x, y) <==> seen(monitors, x, y) || seen_on(more, x, y),
        !seen(Seq::<Monitor>::empty(), x, y),
{
    let all = monitors.push(more);
    if seen(monitors, x, y) {
        let i = choose|i: int| 0 <= i < monitors.len() && #[trigger] seen_on(monitors[i], x, y);
        assert(seen_on(all[i], x, y));
    }
    if seen_on(more, x, y) {
        assert(seen_on(all[all.len() - 1], x, y));
    }
    if seen(all, x, y) && !seen_on(more, x, y) {
        let i = choose|i: int| 0 <= i < all.len() && #[trigger] seen_on(all[i], x, y);
        assert(seen_on(monitors[i], x, y));
    }
}

/// The system never gets to draw a frame: what it asks about the frame's size or paint is answered,
/// a style that it wants to set loses its frame and a further style its edges, and all else is left
/// to it.
pub proof fn no_frame_is_let_through(message: u32, index: i32, style: u32, role: Role)
    ensures
        message == 0x83 || message == 0x85 ==> reply_to(message, index, Some(style), role)
            == FrameReply::Answer(0),
        message == 0x86 ==> reply_to(message, index, Some(style), role) == FrameReply::Answer(1),
        message == 0x7C && index == -16 ==> (reply_to(message, index, Some(style), role) matches
            FrameReply::Restyle(s) && s & FRAME == 0 && s & (STYLE_CHILD | STYLE_POPUP) == role_bit(
            role,
        )),
        message == 0x7C && index == -20 ==> (reply_to(message, index, Some(style), role) matches
            FrameReply::Restyle(s) && s & EDGES == 0),
        message == 0x7C && index != -16 && index != -20 ==> reply_to(
            message,
            index,
            Some(style),
            role,
        ) == FrameReply::Pass,
        message == 0x7C ==> reply_to(message, index, None, role) == FrameReply::Pass,
        message != 0x7C && message != 0x83 && message != 0x85 && message != 0x86 ==> reply_to(
            message,
            index,
            Some(style),
            role,
        ) == FrameReply::Pass,
{
    a_frameless_window_stays_frameless(style, role);
}

/// What has to be set on a window takes its frame away, and once it is set nothing has to be.
pub proof fn a_restyled_window_needs_nothing_more(style: u32, extended: u32, role: Role)
    ensures
        ({
            let r = restyling(style, extended, role);
            let s = match r.style {
                Some(s) => s,
                None => style,
            };
            let e = match r.extended {
                Some(e) => e,
                None => extended,
            };
            &&& s & FRAME == 0
            &&& s & (STYLE_CHILD | STYLE_POPUP) == role_bit(role)
            &&& e & EDGES == 0
            &&& r.frame_changed <==> s != style || e != extended
            &&& restyling(s, e, role) == (Restyling {
                style: None,
                extended: None,
                frame_changed: false,
            })
        }),
{
    a_frameless_window_stays_frameless(style, role);
    a_frameless_window_stays_frameless(extended, role);
}

/// The widget is shown only without a frame, with its shape cut out, and in its place: in another
/// window when it belongs to the desktop, else on its own. One whose frame was taken away is.
pub proof fn a_widget_is_shown_as_it_is_to_be(
    style: u32,
    on_desktop: bool,
    has_parent: bool,
    has_region: bool,
)
    ensures
        is_ready(style, on_desktop, has_parent, has_region) ==> style & FRAME == 0 && has_region && (
        on_desktop ==> has_parent && style & STYLE_CHILD != 0) && (!on_desktop ==> style
            & STYLE_POPUP != 0 && style & STYLE_CHILD == 0),
        is_ready(
            frameless(
                style,
                if on_desktop {
                    Role::OnDesktop
                } else {
                    Role::Floating
                },
            ),
            on_desktop,
            true,
            true,
        ),
{
    a_frameless_widget_is_ready(style, on_desktop);
}

/// A window that is put onto the desktop stays where it was on the screen: its place in the desktop
/// and the desktop's place make up its own. Where that fails it goes back to where it was, in its
/// size.
pub proof fn a_window_stays_in_place_on_the_desktop(
    window: Bounds,
    desktop: Bounds,
    event: AttachEvent,
)
    requires
        window.left < window.right,
        window.top < window.bottom,
    ensures
        attach_after(window, desktop, event) matches AttachStep::Move(x, y, width, height)
            ==> desktop.left + x == window.left && desktop.top + y == window.top && window.left
            + width == window.right && window.top + height == window.bottom,
        attach_after(window, desktop, event) matches AttachStep::Restore(x, y, width, height) ==> x
            == window.left && y == window.top && x + width == window.right && y + height
            == window.bottom,
        attach_after(window, desktop, event) is Move <==> event == AttachEvent::Parented(true),
        attach_after(window, desktop, event) is Leave <==> event == AttachEvent::Parented(false),
        attach_after(window, desktop, event) is Attached <==> event == AttachEvent::Placed(true),
        attach_after(window, desktop, event) is Restore <==> event == AttachEvent::Placed(false),
{
}

} // verus!
