use dsh_client::patch::{
    apply_set_disabled, plan_patch_write, precheck_set_disabled, validate_entry_id, PatchError,
    PatchStage, PatchWrite, BACKUP_SUFFIX, MARKER, TMP_SUFFIX,
};

#[test]
fn apply_to_empty_text_writes_one_block() {
    let out = apply_set_disabled("", "assistant/memory", true);
    assert_eq!(out, "- id: assistant/memory  # dsh-client\n  disabled: true  # dsh-client\n");
}

#[test]
fn apply_is_idempotent() {
    let once = apply_set_disabled("", "a", true);
    assert_eq!(apply_set_disabled(&once, "a", true), once);
}

#[test]
fn enable_writes_explicit_disabled_false() {
    let out = apply_set_disabled("", "a", false);
    assert!(out.contains("disabled: false"), "enable 也写显式行：{out}");
}

#[test]
fn preserves_foreign_lines_including_bang_bang_js() {
    let foreign = "- insert:\n    - id: x\n      name: '@scope/x'\n      disabled: !!js process.platform === 'win32'\n- id: y\n  config:\n    k: 1\n";
    let out = apply_set_disabled(foreign, "a", true);
    assert!(out.starts_with(foreign), "他行原样保留：{out}");
    assert!(out.contains("- id: a  # dsh-client"));
}

#[test]
fn flips_existing_block_without_duplicating() {
    let first = apply_set_disabled("", "a", true);
    let flipped = apply_set_disabled(&first, "a", false);
    assert_eq!(flipped.matches("- id: a  # dsh-client").count(), 1, "同一 entry 恰好一条：{flipped}");
    assert!(flipped.contains("disabled: false"));
}

#[test]
fn entry_a_does_not_match_nested_a_b() {
    let text = "- id: a:b  # dsh-client\n  disabled: true  # dsh-client\n";
    let out = apply_set_disabled(text, "a", false);
    assert!(out.contains("- id: a:b  # dsh-client"), "前缀不误伤嵌套 id：{out}");
}

#[test]
fn drops_stale_disabled_continuation_of_same_entry() {
    let messy = "- id: a  # dsh-client\n  disabled: true  # dsh-client\n- id: b\n  disabled: true\n- id: a  # dsh-client\n  disabled: true  # dsh-client\n";
    let out = apply_set_disabled(messy, "a", false);
    assert_eq!(out.matches("- id: a  # dsh-client").count(), 1);
    assert!(out.contains("- id: b\n  disabled: true\n"), "非我方行不动：{out}");
}

#[test]
fn validate_entry_id_rejects_injection_chars() {
    for bad in ["", " a", "a ", "a\nb", "a\rb", "a#b"] {
        assert!(validate_entry_id(bad).is_err(), "应拒绝 {bad:?}");
    }
    assert!(validate_entry_id("a:b/c-d_e").is_ok());
}

#[test]
fn set_disabled_creates_file_backup_and_is_atomic() {
    let current = "- insert:\n    - id: x\n";
    match plan_patch_write(current, true, false, "a", true) {
        PatchWrite::Write { backup, text } => {
            assert!(backup, "首写备份为原始内容");
            assert!(text.contains("- id: a  # dsh-client"));
            assert!(text.starts_with(current));
            match plan_patch_write(&text, true, true, "a", false) {
                PatchWrite::Write { backup, .. } => assert!(!backup, "备份只做一次"),
                PatchWrite::Unchanged => panic!("flip must write"),
            }
        }
        PatchWrite::Unchanged => panic!("first write must write"),
    }
}

#[test]
fn set_disabled_creates_missing_file_without_backup() {
    match plan_patch_write("", false, false, "a", true) {
        PatchWrite::Write { backup, text } => {
            assert!(!backup, "无原件则无备份");
            assert_eq!(text, "- id: a  # dsh-client\n  disabled: true  # dsh-client\n");
        }
        PatchWrite::Unchanged => panic!("must write"),
    }
}

#[test]
fn set_disabled_guides_when_profile_dir_missing() {
    let err = precheck_set_disabled("/tmp/missing/nope/cordis.patch.yml", "a", false).unwrap_err();
    assert!(err.to_display_string().contains("先启动一次 daemon"), "{}", err.to_display_string());
    assert_eq!(err.path, "/tmp/missing/nope/cordis.patch.yml");
}

#[test]
fn realized_intent_is_not_rewritten() {
    let once = apply_set_disabled("- id: y\n", "a", true);
    assert!(matches!(plan_patch_write(&once, true, false, "a", true), PatchWrite::Unchanged));
}

#[test]
fn precheck_reports_bad_id_before_missing_dir() {
    let err = precheck_set_disabled("/p/cordis.patch.yml", "a#b", false).unwrap_err();
    assert_eq!(err.message, "entryId 含非法字符：\"a#b\"");
    assert_eq!(err.to_display_string(), "/p/cordis.patch.yml：entryId 含非法字符：\"a#b\"");
    let err = precheck_set_disabled("/p/cordis.patch.yml", " a", true).unwrap_err();
    assert_eq!(err.message, "entryId 为空或含首尾空白：\" a\"");
    assert!(precheck_set_disabled("/p/cordis.patch.yml", "a", true).is_ok());
}

#[test]
fn io_errors_name_their_stage() {
    let e = PatchError::io("/p", PatchStage::Read, "denied");
    assert_eq!(e.to_display_string(), "/p：读取失败：denied");
    assert_eq!(PatchError::io("/p", PatchStage::Backup, "x").message, "备份失败：x");
    assert_eq!(PatchError::io("/p", PatchStage::WriteTemp, "x").message, "写入临时文件失败：x");
    assert_eq!(PatchError::io("/p", PatchStage::Rename, "x").message, "原子替换失败：x");
}

#[test]
fn foreign_text_gets_block_appended() {
    let out = apply_set_disabled("- id: y\n  config: 1", "a", false);
    assert_eq!(out, "- id: y\n  config: 1\n- id: a  # dsh-client\n  disabled: false  # dsh-client\n");
}

#[test]
fn suffixes_and_marker() {
    assert_eq!(MARKER, "# dsh-client");
    assert_eq!(BACKUP_SUFFIX, ".dsh-client.bak");
    assert_eq!(TMP_SUFFIX, ".dsh-client.tmp");
}

#[test]
fn marker_spacing_is_tolerated_when_dropping() {
    let text = "- id: a    # dsh-client   \n    disabled: true # dsh-client\n- id: z\n";
    let out = apply_set_disabled(text, "a", false);
    assert_eq!(out, "- id: z\n- id: a  # dsh-client\n  disabled: false  # dsh-client\n");
}
