use dsh_client::home::{
    dsh_home_from, patch_file, profile_dir, PathStyle, DSH_HOME_DIR_NAME, DSH_HOME_ENV, PROFILE_NAME,
    PROFILE_PATCH_FILENAME,
};

const U: PathStyle = PathStyle::Unix;
use std::path::PathBuf;

#[test]
fn env_override_wins() {
    let home = dsh_home_from(U, Some("D:/dsh-data"), Some("C:/Users/x")).unwrap();
    assert_eq!(PathBuf::from(home), PathBuf::from("D:/dsh-data"));
}

#[test]
fn blank_env_falls_back_to_default() {
    for blank in ["", "   "] {
        let home = dsh_home_from(U, Some(blank), Some("/home/x")).unwrap();
        assert_eq!(PathBuf::from(home), PathBuf::from("/home/x").join(".dsh"), "空白值 {blank:?} 应视为未设置");
    }
}

#[test]
fn missing_env_uses_home_dot_dsh() {
    let home = dsh_home_from(U, None, Some("/home/x")).unwrap();
    assert_eq!(PathBuf::from(home), PathBuf::from("/home/x").join(".dsh"));
}

#[test]
fn nothing_resolvable_yields_none() {
    assert!(dsh_home_from(U, None, None).is_none());
}

#[test]
fn profile_and_patch_paths_join() {
    let home = "/data/.dsh";
    let profile = profile_dir(U, home);
    assert_eq!(PathBuf::from(&profile), PathBuf::from("/data/.dsh/profiles/web"));
    assert_eq!(PathBuf::from(patch_file(U, &profile)), PathBuf::from("/data/.dsh/profiles/web/cordis.patch.yml"));
}

#[test]
fn override_value_is_trimmed() {
    assert_eq!(dsh_home_from(U, Some("  /srv/dsh \n"), None).unwrap(), "/srv/dsh");
}

#[test]
fn joins_match_std_path_join() {
    for base in ["/a", "/a/", "", "rel"] {
        let ours = dsh_home_from(U, None, Some(base)).unwrap();
        assert_eq!(ours, PathBuf::from(base).join(".dsh").to_str().unwrap(), "{base:?}");
        let profile = profile_dir(U, base);
        assert_eq!(profile, PathBuf::from(base).join("profiles").join("web").to_str().unwrap());
    }
}

#[test]
fn windows_paths_use_backslashes() {
    let w = PathStyle::Windows;
    assert_eq!(dsh_home_from(w, None, Some("C:\\Users\\x")).unwrap(), "C:\\Users\\x\\.dsh");
    assert_eq!(dsh_home_from(w, None, Some("C:/Users/x/")).unwrap(), "C:/Users/x/.dsh");
    assert_eq!(dsh_home_from(w, None, Some("C:")).unwrap(), "C:.dsh");
    let profile = profile_dir(w, "D:\\dsh");
    assert_eq!(profile, "D:\\dsh\\profiles\\web");
    assert_eq!(patch_file(w, &profile), "D:\\dsh\\profiles\\web\\cordis.patch.yml");
}

#[test]
fn names_are_the_upstream_ones() {
    assert_eq!(DSH_HOME_ENV, "DSH_HOME");
    assert_eq!(DSH_HOME_DIR_NAME, ".dsh");
    assert_eq!(PROFILE_NAME, "web");
    assert_eq!(PROFILE_PATCH_FILENAME, "cordis.patch.yml");
    assert_eq!(profile_dir(U, "/h/"), "/h/profiles/web");
}
