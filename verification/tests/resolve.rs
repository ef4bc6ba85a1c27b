use dsh_client::resolve::{extract_bin_token, resolve_invocation, resolve_launch, DshInvocation, LaunchPlan};

#[test]
fn override_splits_program_and_prefix() {
    let invocation = resolve_invocation(Some("node C:\\nvm\\v24.15.0\\bin.js"), false, false);
    assert_eq!(invocation.program, "node");
    assert_eq!(invocation.prefix, vec!["C:\\nvm\\v24.15.0\\bin.js"]);
}

#[test]
fn blank_override_falls_through_without_panic() {
    assert!(!resolve_invocation(Some("   "), false, false).program.is_empty());
    assert!(!resolve_invocation(Some("   "), true, true).program.is_empty());
}

#[test]
fn plan_appends_subcommand_args() {
    let invocation = resolve_invocation(Some("node /opt/dsh/bin.js"), false, false);
    let plan = invocation.plan(&["plugin", "--profile", "web", "add", "foo"]);
    assert_eq!(plan.program, "node");
    assert_eq!(plan.args, vec!["/opt/dsh/bin.js", "plugin", "--profile", "web", "add", "foo"]);
}

#[test]
fn resolve_launch_keeps_legacy_shape() {
    let plan = resolve_launch(Some("node /opt/dsh/bin.js"), false, false);
    assert_eq!(plan.args, vec!["/opt/dsh/bin.js", "web", "--port", "0"]);
}

#[test]
fn path_fallbacks_in_order() {
    let dsh = resolve_invocation(None, true, true);
    assert_eq!((dsh.program.as_str(), dsh.prefix.len()), ("dsh", 0));
    let npx = resolve_invocation(Some(""), false, true);
    assert_eq!(npx.program, "npx");
    assert_eq!(npx.prefix, vec!["-y", "@deepseek-ai/dsh@latest"]);
    let bare = resolve_invocation(None, false, false);
    assert_eq!((bare.program.as_str(), bare.prefix.len()), ("dsh", 0));
    assert_eq!(resolve_launch(None, false, true).args, vec!["-y", "@deepseek-ai/dsh@latest", "web", "--port", "0"]);
}

#[test]
fn override_words_split_on_any_whitespace() {
    let inv = resolve_invocation(Some("\t node  a\u{3000}b \n"), false, false);
    assert_eq!(inv.program, "node");
    assert_eq!(inv.prefix, vec!["a", "b"]);
}

#[test]
fn displays_join_with_spaces() {
    let inv = DshInvocation { program: "npx".into(), prefix: vec!["-y".into(), "@deepseek-ai/dsh@latest".into()] };
    assert_eq!(inv.display(), "npx -y @deepseek-ai/dsh@latest");
    let empty = DshInvocation { program: "dsh".into(), prefix: vec![] };
    assert_eq!(empty.display(), "dsh ");
    let plan = LaunchPlan { program: "dsh".into(), args: vec!["web".into(), "--port".into(), "0".into()] };
    assert_eq!(plan.display(), "dsh web --port 0");
}

#[test]
fn bin_token_is_first_word() {
    assert_eq!(extract_bin_token(Some("  node /x.js")), Some("node".to_string()));
    assert_eq!(extract_bin_token(Some(" \t ")), None);
    assert_eq!(extract_bin_token(None), None);
}

#[test]
fn probe_token_is_the_launched_program() {
    for o in ["node /x.js", "  C:\\node.exe\t/y.js  ", "dsh"] {
        let token = extract_bin_token(Some(o)).unwrap();
        for (d, n) in [(false, false), (true, false), (false, true)] {
            assert_eq!(resolve_invocation(Some(o), d, n).program, token);
        }
    }
}
