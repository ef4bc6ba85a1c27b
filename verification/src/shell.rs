//! Decisions of the desktop shell around the daemon: which event channel an
//! event goes to, where the main window goes on an event, how many log lines
//! a request may ask for, where the palette is placed, and the guard messages
//! of the commands. Windows, the tray and the webview are the caller's part.

use vstd::prelude::*;
use crate::home::{path_join, patch_file, profile_dir, PathStyle, PROFILE_NAME, PROFILE_PATCH_FILENAME};
use crate::supervisor::{EventView, SupervisorEvent};

verus! {

/// The `daemon://` channel an event is emitted on.
pub open spec fn channel_spec(e: EventView) -> Seq<char> {
    match e {
        EventView::Starting { .. } => "daemon://starting"@,
        EventView::Ready { .. } => "daemon://ready"@,
        EventView::Crashed { .. } => "daemon://crashed"@,
        EventView::Stopped => "daemon://stopped"@,
        EventView::Log { .. } => "daemon://log"@,
    }
}

/// The `daemon://` channel for each event variant.
pub fn channel_of(event: &SupervisorEvent) -> (r: &'static str)
    ensures
        r@ == channel_spec(event@),
{
    match event {
        SupervisorEvent::Starting { .. } => "daemon://starting",
        SupervisorEvent::Ready { .. } => "daemon://ready",
        SupervisorEvent::Crashed { .. } => "daemon://crashed",
        SupervisorEvent::Stopped => "daemon://stopped",
        SupervisorEvent::Log { .. } => "daemon://log",
    }
}

/// Where the main window goes after a supervisor event.
#[derive(Debug, Clone, Copy, PartialEq, Eq, Structural)]
pub enum Navigation {
    /// Load the daemon's UI at `http://127.0.0.1:<port>`.
    ToDaemon { port: u16 },
    /// Back to the splash page, if the window is on another origin.
    ToSplash,
    /// Stay.
    Stay,
}

pub open spec fn navigation_spec(e: EventView) -> Navigation {
    match e {
        EventView::Ready { port, .. } => Navigation::ToDaemon { port },
        EventView::Crashed { .. } => Navigation::ToSplash,
        EventView::Stopped => Navigation::ToSplash,
        _ => Navigation::Stay,
    }
}

/// Ready sends the window to the daemon; a crash or a stop brings it back to
/// the splash; other events leave it.
pub fn navigation_for(event: &SupervisorEvent) -> (r: Navigation)
    ensures
        r == navigation_spec(event@),
{
    match event {
        SupervisorEvent::Ready { port, .. } => Navigation::ToDaemon { port: *port },
        SupervisorEvent::Crashed { .. } => Navigation::ToSplash,
        SupervisorEvent::Stopped => Navigation::ToSplash,
        _ => Navigation::Stay,
    }
}

/// Lines a log-tail request gets by default.
pub const DEFAULT_LOG_LINES: usize = 60;

/// Most lines one log-tail request may get.
pub const MAX_LOG_LINES: usize = 500;

/// The requested number of log lines, defaulting to 60 and held to
/// `1..=500`.
pub fn log_request_size(max: Option<usize>) -> (n: usize)
    ensures
        n == (match max {
            None => DEFAULT_LOG_LINES,
            Some(m) => if m < 1 {
                1
            } else if m > MAX_LOG_LINES {
                MAX_LOG_LINES
            } else {
                m
            },
        }),
        1 <= n <= MAX_LOG_LINES,
{
    match max {
        None => DEFAULT_LOG_LINES,
        Some(m) => if m < 1 {
            1
        } else if m > MAX_LOG_LINES {
            MAX_LOG_LINES
        } else {
            m
        },
    }
}

/// A `u32` read as an `i32` (`as i32`: values from 2^31 up wrap to negative).
pub open spec fn wrap_i32(u: u32) -> int {
    if u < 0x8000_0000 {
        u as int
    } else {
        u as int - 0x1_0000_0000
    }
}

/// Integer division by 2 rounding toward zero, as Rust's `/` on `i32`.
pub open spec fn half_toward_zero(d: int) -> int {
    if d >= 0 {
        d / 2
    } else {
        -((-d) / 2)
    }
}

/// The coordinate that centers an overlay of extent `overlay` over a target
/// at `pos` of extent `target` (all in physical pixels).
pub open spec fn center_spec(pos: i32, target: u32, overlay: u32) -> int {
    pos + half_toward_zero(wrap_i32(target) - wrap_i32(overlay))
}

fn as_i32(u: u32) -> (r: i32)
    ensures
        r == wrap_i32(u),
{
    if u < 0x8000_0000 {
        u as i32
    } else {
        let k: i64 = u as i64 - 0x1_0000_0000i64;
        k as i32
    }
}

/// One coordinate of the palette's position when centered over the main
/// window: `pos + (target as i32 - overlay as i32) / 2`. The sums are those of
/// `i32`, so inputs whose intermediate results leave `i32` are excluded.
pub fn center_coordinate(pos: i32, target: u32, overlay: u32) -> (r: i32)
    requires
        i32::MIN <= wrap_i32(target) - wrap_i32(overlay) <= i32::MAX,
        i32::MIN <= center_spec(pos, target, overlay) <= i32::MAX,
    ensures
        r == center_spec(pos, target, overlay),
{
    let t = as_i32(target) as i64;
    let o = as_i32(overlay) as i64;
    let d: i64 = t - o;
    let h: i64 = if d >= 0 {
        d / 2
    } else {
        -((-d) / 2)
    };
    let x: i64 = pos as i64 + h;
    x as i32
}

/// The centering coordinate, or `None` when one of the `i32` operations of
/// `pos + (target as i32 - overlay as i32) / 2` would overflow.
pub fn center_coordinate_checked(pos: i32, target: u32, overlay: u32) -> (r: Option<i32>)
    ensures
        match r {
            Some(x) => x == center_spec(pos, target, overlay),
            None => !(i32::MIN <= wrap_i32(target) - wrap_i32(overlay) <= i32::MAX && i32::MIN
                <= center_spec(pos, target, overlay) <= i32::MAX),
        },
{
    let t = as_i32(target) as i64;
    let o = as_i32(overlay) as i64;
    let d: i64 = t - o;
    if d < i32::MIN as i64 || d > i32::MAX as i64 {
        return None;
    }
    let h: i64 = if d >= 0 {
        d / 2
    } else {
        -((-d) / 2)
    };
    let x: i64 = pos as i64 + h;
    if x < i32::MIN as i64 || x > i32::MAX as i64 {
        return None;
    }
    Some(center_coordinate(pos, target, overlay))
}

/// The command's answer when the daemon was never started.
pub open spec fn daemon_not_started_text() -> Seq<char> {
    "daemon 未启动（preflight 未通过），请先解决运行环境问题"@
}

/// The command's answer when the daemon has no port yet.
pub open spec fn daemon_not_ready_text() -> Seq<char> {
    "daemon 未就绪：尚无可用端口（启动中或已崩溃）"@
}

/// The port an `/api` call goes to: refused when the supervisor was never
/// started (preflight failed) or the daemon has no port yet.
pub fn api_port(daemon_started: bool, port: Option<u16>) -> (r: Result<u16, String>)
    ensures
        !daemon_started ==> (r matches Err(m) && m@ == daemon_not_started_text()),
        daemon_started && port is None ==> (r matches Err(m) && m@ == daemon_not_ready_text()),
        daemon_started && port is Some ==> r == Ok::<u16, String>(port->0),
{
    if !daemon_started {
        return Err(String::from_str("daemon 未启动（preflight 未通过），请先解决运行环境问题"));
    }
    match port {
        Some(p) => Ok(p),
        None => Err(String::from_str("daemon 未就绪：尚无可用端口（启动中或已崩溃）")),
    }
}

/// The command's answer when no dsh home can be found.
pub open spec fn home_missing_text() -> Seq<char> {
    "无法定位 dsh home（DSH_HOME 未设置且无法解析用户目录）"@
}

/// The patch file of the web profile under the resolved dsh home.
pub fn patch_path_for(style: PathStyle, home: Option<&str>) -> (r: Result<String, String>)
    ensures
        match home {
            Some(h) => r matches Ok(p) && p@ == path_join(
                style,
                path_join(style, path_join(style, h@, "profiles"@), PROFILE_NAME@),
                PROFILE_PATCH_FILENAME@,
            ),
            None => r matches Err(m) && m@ == home_missing_text(),
        },
{
    match home {
        Some(h) => {
            let dir = profile_dir(style, h);
            Ok(patch_file(style, dir.as_str()))
        },
        None => Err(String::from_str("无法定位 dsh home（DSH_HOME 未设置且无法解析用户目录）")),
    }
}

/// What a request to exit the application does.
#[derive(Debug, Clone, Copy, PartialEq, Eq, Structural)]
pub enum ExitAction {
    /// Closing the last window: keep running in the tray, hide the window.
    KeepInTray,
    /// A real exit: stop the supervisor and let the process end.
    StopAndExit,
}

/// A window-close exit (no exit code) keeps the app in the tray; an exit
/// with a code is real.
pub fn exit_action(code: Option<i32>) -> (a: ExitAction)
    ensures
        a == (if code is None {
            ExitAction::KeepInTray
        } else {
            ExitAction::StopAndExit
        }),
{
    match code {
        None => ExitAction::KeepInTray,
        Some(_) => ExitAction::StopAndExit,
    }
}

/// What a tray menu item does.
#[derive(Debug, Clone, Copy, PartialEq, Eq, Structural)]
pub enum MenuAction {
    OpenPalette,
    ShowPlugins,
    ShowMain,
    RestartDaemon,
    Quit,
}

pub open spec fn menu_spec(id: Seq<char>) -> Option<MenuAction> {
    if id == "show_palette"@ {
        Some(MenuAction::OpenPalette)
    } else if id == "show_plugins"@ {
        Some(MenuAction::ShowPlugins)
    } else if id == "show_main"@ {
        Some(MenuAction::ShowMain)
    } else if id == "restart"@ {
        Some(MenuAction::RestartDaemon)
    } else if id == "quit"@ {
        Some(MenuAction::Quit)
    } else {
        None
    }
}

/// The action of the tray menu item with id `id`; `None` for unknown ids.
pub fn menu_action(id: &str) -> (r: Option<MenuAction>)
    ensures
        r == menu_spec(id@),
{
    let c = crate::text::chars_of(id);
    let is = |lit: &str| -> (b: bool)
        ensures
            b == (id@ == lit@),
        { crate::text::eq_chars(c.as_slice(), crate::text::chars_of(lit).as_slice()) };
    if is("show_palette") {
        Some(MenuAction::OpenPalette)
    } else if is("show_plugins") {
        Some(MenuAction::ShowPlugins)
    } else if is("show_main") {
        Some(MenuAction::ShowMain)
    } else if is("restart") {
        Some(MenuAction::RestartDaemon)
    } else if is("quit") {
        Some(MenuAction::Quit)
    } else {
        None
    }
}

/// The error of a window command when the window was not declared.
pub fn window_missing(label: &str) -> (m: String)
    ensures
        m@ == "窗口 "@ + label@ + " 未创建"@,
{
    let mut m = String::from_str("窗口 ");
    m.append(label);
    m.append(" 未创建");
    m
}


/// Only lifecycle changes move the main window: `Ready` sends it to the
/// daemon on the announced port, `Crashed` and `Stopped` bring it back to the
/// splash, and `Starting` and log lines leave it where it is.
pub proof fn lemma_only_lifecycle_moves_window(e: EventView)
    ensures
        (navigation_spec(e) == Navigation::Stay) <==> (e is Starting || e is Log),
        (navigation_spec(e) == Navigation::ToSplash) <==> (e is Crashed || e is Stopped),
        forall|port: u16|
            (navigation_spec(e) == Navigation::ToDaemon { port }) <==> (e matches EventView::Ready {
                port: p,
                ..
            } && p == port),
{
}

} // verus!
