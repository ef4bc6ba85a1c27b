use dsh_client::shell::{
    api_port, center_coordinate, center_coordinate_checked, channel_of, exit_action, log_request_size, menu_action, navigation_for,
    patch_path_for, window_missing, ExitAction, MenuAction, Navigation,
};
use dsh_client::supervisor::{LogStream, SupervisorEvent};

#[test]
fn channels_per_event() {
    assert_eq!(channel_of(&SupervisorEvent::Starting { attempt: 1 }), "daemon://starting");
    assert_eq!(channel_of(&SupervisorEvent::Ready { port: 1, pid: 2 }), "daemon://ready");
    assert_eq!(
        channel_of(&SupervisorEvent::Crashed { attempt: 1, reason: "r".into(), retry_in_ms: 5 }),
        "daemon://crashed"
    );
    assert_eq!(channel_of(&SupervisorEvent::Stopped), "daemon://stopped");
    assert_eq!(channel_of(&SupervisorEvent::Log { stream: LogStream::Stdout, line: "x".into() }), "daemon://log");
}

#[test]
fn navigation_follows_lifecycle() {
    assert_eq!(navigation_for(&SupervisorEvent::Ready { port: 39187, pid: 2 }), Navigation::ToDaemon { port: 39187 });
    assert_eq!(navigation_for(&SupervisorEvent::Stopped), Navigation::ToSplash);
    assert_eq!(
        navigation_for(&SupervisorEvent::Crashed { attempt: 1, reason: "r".into(), retry_in_ms: 5 }),
        Navigation::ToSplash
    );
    assert_eq!(navigation_for(&SupervisorEvent::Starting { attempt: 1 }), Navigation::Stay);
}

#[test]
fn log_request_is_clamped() {
    assert_eq!(log_request_size(None), 60);
    assert_eq!(log_request_size(Some(0)), 1);
    assert_eq!(log_request_size(Some(200)), 200);
    assert_eq!(log_request_size(Some(10_000)), 500);
}

#[test]
fn palette_is_centered_like_i32_arithmetic() {
    assert_eq!(center_coordinate(100, 800, 600), 200);
    assert_eq!(center_coordinate(0, 600, 801), 600i32.wrapping_sub(801) / 2);
    assert_eq!(center_coordinate(-50, 10, 20), -55);
    assert_eq!(center_coordinate(0, 3_000_000_000, 0), (3_000_000_000u32 as i32) / 2);
}

#[test]
fn api_calls_need_a_started_ready_daemon() {
    assert_eq!(api_port(false, Some(1)).unwrap_err(), "daemon 未启动（preflight 未通过），请先解决运行环境问题");
    assert_eq!(api_port(true, None).unwrap_err(), "daemon 未就绪：尚无可用端口（启动中或已崩溃）");
    assert_eq!(api_port(true, Some(39187)), Ok(39187));
}

#[test]
fn patch_path_under_home() {
    assert_eq!(patch_path_for(dsh_client::home::PathStyle::Unix, Some("/data/.dsh")).unwrap(), "/data/.dsh/profiles/web/cordis.patch.yml");
    assert_eq!(patch_path_for(dsh_client::home::PathStyle::Unix, None).unwrap_err(), "无法定位 dsh home（DSH_HOME 未设置且无法解析用户目录）");
}

#[test]
fn exit_and_menu_actions() {
    assert_eq!(exit_action(None), ExitAction::KeepInTray);
    assert_eq!(exit_action(Some(0)), ExitAction::StopAndExit);
    assert_eq!(menu_action("show_palette"), Some(MenuAction::OpenPalette));
    assert_eq!(menu_action("show_plugins"), Some(MenuAction::ShowPlugins));
    assert_eq!(menu_action("show_main"), Some(MenuAction::ShowMain));
    assert_eq!(menu_action("restart"), Some(MenuAction::RestartDaemon));
    assert_eq!(menu_action("quit"), Some(MenuAction::Quit));
    assert_eq!(menu_action("other"), None);
    assert_eq!(window_missing("plugins"), "窗口 plugins 未创建");
}

#[test]
fn palette_position_overflow_is_reported() {
    assert_eq!(center_coordinate_checked(i32::MAX, 10, 0), None);
    assert_eq!(center_coordinate_checked(0, 0x7fff_ffff, 0x8000_0000), None);
    assert_eq!(center_coordinate_checked(10, 20, 10), Some(15));
}
