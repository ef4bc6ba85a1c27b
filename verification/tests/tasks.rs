use dsh_client::resolve::DshInvocation;
use dsh_client::tasks::{
    command_line, push_line, task_outcome, task_plan, validate_spec, PluginTaskKind, PluginTaskStatus,
    PluginTaskView, TaskBoard, TaskOutcome, FINISHED_RETAIN, OUTPUT_TAIL_CAP,
};

fn view(id: &str) -> PluginTaskView {
    PluginTaskView {
        task_id: id.into(),
        kind: PluginTaskKind::Install,
        spec: "s".into(),
        status: PluginTaskStatus::Running,
        output_tail: Vec::new(),
        exit_code: None,
    }
}

#[test]
fn validate_spec_rejects_shell_metacharacters() {
    for bad in ["", " a", "a ", "a b", "a&calc", "a|b", "a>b", "a\"b", "a^b", "a\nb"] {
        assert!(validate_spec(bad).is_err(), "应拒绝 {bad:?}");
    }
    assert!(validate_spec("@scope/name@1.2.3").is_ok());
    assert!(validate_spec("github:user/repo").is_ok());
}

#[test]
fn output_tail_is_capped() {
    let mut v = view("t");
    for i in 0..600 {
        push_line(&mut v, format!("line-{i}"));
    }
    assert_eq!(v.output_tail.len(), OUTPUT_TAIL_CAP);
    assert_eq!(v.output_tail[0], "line-100");
}

#[test]
fn spec_errors_are_exact() {
    assert_eq!(validate_spec(" a").unwrap_err(), "spec 为空或含首尾空白");
    assert_eq!(validate_spec("a<b").unwrap_err(), "spec 含非法字符：\"a<b\"");
    assert_eq!(validate_spec("a\u{3000}b").unwrap_err(), "spec 含非法字符：\"a\\u{3000}b\"");
}

#[test]
fn submit_registers_running_task() {
    let mut board = TaskBoard::new();
    let v = board.submit(PluginTaskKind::Remove, "spec-b".into()).unwrap();
    assert_eq!(v.status, PluginTaskStatus::Running);
    assert_eq!(v.kind, PluginTaskKind::Remove);
    assert_eq!(v.spec, "spec-b");
    assert_eq!(v.task_id.len(), 36);
    assert!(v.output_tail.is_empty());
    let list = board.list();
    assert_eq!(list.len(), 1);
    assert_eq!(list[0].task_id, v.task_id);
    assert!(board.submit(PluginTaskKind::Install, "a b".into()).is_err());
    assert_eq!(board.list().len(), 1);
}

#[test]
fn output_goes_to_the_named_task() {
    let mut board = TaskBoard::new();
    let a = board.submit(PluginTaskKind::Install, "a".into()).unwrap();
    let b = board.submit(PluginTaskKind::Install, "b".into()).unwrap();
    let ev = board.push_output(&b.task_id, "hello".into()).unwrap();
    assert_eq!(ev.output_tail, vec!["hello".to_string()]);
    let list = board.list();
    assert!(list[0].output_tail.is_empty());
    assert_eq!(list[1].output_tail, vec!["hello".to_string()]);
    assert!(board.push_output("missing", "x".into()).is_none());
    assert_eq!(a.status, PluginTaskStatus::Running);
}

#[test]
fn finish_marks_status_and_keeps_running_tasks() {
    let mut board = TaskBoard::new();
    let mut ids = Vec::new();
    for i in 0..40 {
        ids.push(board.submit(PluginTaskKind::Install, format!("p{i}")).unwrap().task_id);
    }
    // Finish all but the last five.
    for id in &ids[..35] {
        let ev = board.finish(id, PluginTaskStatus::Done, Some(0), "完成".into()).unwrap();
        assert_eq!(ev.status, PluginTaskStatus::Done);
        assert_eq!(ev.exit_code, Some(0));
        assert_eq!(ev.output_tail.last().unwrap(), "完成");
    }
    let list = board.list();
    let finished: Vec<_> = list.iter().filter(|v| v.status != PluginTaskStatus::Running).collect();
    let running: Vec<_> = list.iter().filter(|v| v.status == PluginTaskStatus::Running).collect();
    assert_eq!(finished.len(), FINISHED_RETAIN);
    assert_eq!(running.len(), 5);
    // The newest finished ones stay, oldest first.
    assert_eq!(finished[0].task_id, ids[3]);
    assert_eq!(finished[FINISHED_RETAIN - 1].task_id, ids[34]);
    assert_eq!(running[0].task_id, ids[35]);
    assert!(board.finish("missing", PluginTaskStatus::Failed, None, "x".into()).is_none());
}

#[test]
fn task_command_line_is_plugin_verb_spec() {
    let inv = DshInvocation { program: "node".into(), prefix: vec!["/opt/dsh/bin.js".into()] };
    let plan = task_plan(&inv, PluginTaskKind::Install, "foo");
    assert_eq!(plan.program, "node");
    assert_eq!(plan.args, vec!["/opt/dsh/bin.js", "plugin", "--profile", "web", "add", "foo"]);
    assert_eq!(command_line(&plan), "$ node /opt/dsh/bin.js plugin --profile web add foo");
    let plan = task_plan(&inv, PluginTaskKind::Remove, "bar");
    assert_eq!(plan.args[4], "remove");
}

#[test]
fn outcomes_read_as_the_runner_reports_them() {
    assert_eq!(
        task_outcome(&TaskOutcome::Exited { success: true, code: Some(0) }),
        (PluginTaskStatus::Done, Some(0), "完成".to_string())
    );
    assert_eq!(
        task_outcome(&TaskOutcome::Exited { success: false, code: Some(-2) }),
        (PluginTaskStatus::Failed, Some(-2), format!("退出码 {:?}", Some(-2)))
    );
    assert_eq!(
        task_outcome(&TaskOutcome::Exited { success: false, code: None }),
        (PluginTaskStatus::Failed, None, format!("退出码 {:?}", None::<i32>))
    );
    assert_eq!(
        task_outcome(&TaskOutcome::SpawnFailed("not found".into())),
        (PluginTaskStatus::Failed, None, "启动失败：not found".to_string())
    );
    assert_eq!(
        task_outcome(&TaskOutcome::WaitFailed("io".into())),
        (PluginTaskStatus::Failed, None, "等待退出失败：io".to_string())
    );
}
