use dsh_client::preflight::{
    build_failure_message, clause_satisfies, compare, engine_satisfies, parse_version, preflight_report,
    probe_target, Order, Version, VersionSource, REQUIRED_ENGINE,
};

#[test]
fn caret_rejects_one_below_minor() {
    assert!(!engine_satisfies("v22.18.5", "^22.19.0"));
    assert!(!engine_satisfies("22.18.99", "^22.19.0"));
}

#[test]
fn caret_rejects_major_bump() {
    assert!(!engine_satisfies("v23.0.0", "^22.19.0"));
    assert!(!engine_satisfies("v24.0.0", "^22.19.0"));
}

#[test]
fn caret_accepts_minor_within_same_major() {
    assert!(engine_satisfies("v22.19.0", "^22.19.0"));
    assert!(engine_satisfies("v22.99.3", "^22.19.0"));
}

#[test]
fn gte_accepts_open_ended_upper() {
    assert!(engine_satisfies("v24.0.0", ">=24.0.0"));
    assert!(engine_satisfies("v25.7.1", ">=24.0.0"));
    assert!(!engine_satisfies("v23.99.0", ">=24.0.0"));
}

#[test]
fn or_clause_combines() {
    assert!(engine_satisfies("v22.19.0", "^22.19.0 || >=24.0.0"));
    assert!(engine_satisfies("v22.99.0", "^22.19.0 || >=24.0.0"));
    assert!(!engine_satisfies("v23.5.0", "^22.19.0 || >=24.0.0"));
    assert!(engine_satisfies("v24.0.0", "^22.19.0 || >=24.0.0"));
}

#[test]
fn missing_version_string_fails_closed() {
    assert!(!engine_satisfies("", "^22.19.0"));
    assert!(!engine_satisfies("not-a-version", "^22.19.0"));
}

#[test]
fn tolerates_whitespace_around_or() {
    assert!(engine_satisfies("v22.19.0", "^22.19.0   ||   >=24.0.0"));
}

#[test]
fn parse_version_shapes() {
    assert_eq!(parse_version(" v22.19.0\n"), Some(Version { major: 22, minor: 19, patch: 0 }));
    assert_eq!(parse_version("24.1"), Some(Version { major: 24, minor: 1, patch: 0 }));
    assert_eq!(parse_version("v24.1.2-rc.1"), Some(Version { major: 24, minor: 1, patch: 2 }));
    assert_eq!(parse_version("vv1..2"), Some(Version { major: 1, minor: 2, patch: 0 }));
    assert_eq!(parse_version("22"), None);
    assert_eq!(parse_version("4294967296.1.0"), None);
    assert_eq!(parse_version("1.2.4294967296"), Some(Version { major: 1, minor: 2, patch: 0 }));
}

#[test]
fn greater_and_exact_clauses() {
    let v = Version { major: 24, minor: 0, patch: 0 };
    assert!(!clause_satisfies(&v, ">24.0.0"));
    assert!(clause_satisfies(&v, "> 23.9.9"));
    assert!(clause_satisfies(&v, "24.0.0"));
    assert!(!clause_satisfies(&v, "24.0.1"));
    assert!(!clause_satisfies(&v, "   "));
    assert!(!clause_satisfies(&v, ">=x"));
    assert_eq!(compare(&v, &Version { major: 24, minor: 0, patch: 1 }), Order::Less);
    assert_eq!(compare(&v, &v), Order::Equal);
}

#[test]
fn empty_range_accepts_nothing() {
    assert!(!engine_satisfies("v22.19.0", ""));
    assert!(!engine_satisfies("v22.19.0", "||"));
}

#[test]
fn probe_prefers_override_token() {
    assert_eq!(probe_target(Some("node"), Some("/usr/bin/node")), (Some("node".to_string()), VersionSource::OverrideBin));
    assert_eq!(probe_target(Some("  "), Some("/usr/bin/node")), (Some("/usr/bin/node".to_string()), VersionSource::PathNode));
    assert_eq!(probe_target(None, None), (None, VersionSource::Unavailable));
}

#[test]
fn failure_messages_are_exact() {
    assert_eq!(
        build_failure_message(Some("v20.1.0"), VersionSource::PathNode),
        format!("检测到 Node v20.1.0，不满足上游要求 {REQUIRED_ENGINE}；请用 nvm-windows 切换到 22.19+ 或 24+ 后重启应用")
    );
    assert_eq!(
        build_failure_message(None, VersionSource::Unavailable),
        "未在 PATH 中找到 node；请先安装 Node 22.19+ 或 24+，或设置 DSH_CLIENT_BIN 指向已有的 node.exe"
    );
    assert_eq!(
        build_failure_message(None, VersionSource::OverrideBin),
        format!("虽然找到了 node 二进制，但无法读取其版本；请确认 node 可正常执行（`node -v`），要求 {REQUIRED_ENGINE}")
    );
}

#[test]
fn report_gates_on_engine_and_reachability() {
    let ok = preflight_report(Some("v24.1.0".into()), VersionSource::PathNode, Some("/usr/bin/node".into()), "dsh", true, false);
    assert!(ok.engine_ok && ok.dsh_reachable && ok.failure.is_none());
    assert_eq!(ok.required, REQUIRED_ENGINE);
    let unreachable = preflight_report(Some("v24.1.0".into()), VersionSource::PathNode, None, "dsh", false, false);
    assert!(!unreachable.engine_ok && !unreachable.dsh_reachable);
    assert_eq!(unreachable.failure.unwrap(), "无法在 PATH 中找到 dsh 或 npx；请安装 @deepseek-ai/dsh 或确保 npx 可用");
    let custom = preflight_report(Some("v24.1.0".into()), VersionSource::OverrideBin, None, "node", false, false);
    assert!(custom.engine_ok && custom.dsh_reachable);
    let old = preflight_report(Some("v23.0.0".into()), VersionSource::PathNode, None, "dsh", true, true);
    assert!(!old.engine_ok);
    assert!(old.failure.unwrap().starts_with("检测到 Node v23.0.0"));
    let none = preflight_report(None, VersionSource::Unavailable, None, "dsh", true, true);
    assert!(!none.engine_ok && none.version.is_none());
}
