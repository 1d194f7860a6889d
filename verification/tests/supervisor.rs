//! Tests of the process supervisor's registry decisions and the
//! interpretation of finished commands.

use hexo_core::error::Error;
use hexo_core::hexo::{CommandOutput, HexoProject, ServerRegistry};

#[test]
fn start_twice_reports_already_running() {
    let mut reg = ServerRegistry::new();
    let project = HexoProject::new("/proj".to_string());
    let id = project.start_server(&mut reg, 41).unwrap();
    assert_eq!(id, "/proj");
    assert!(matches!(project.start_server(&mut reg, 42), Err(Error::AlreadyRunning)));
}

#[test]
fn stop_unknown_reports_server_not_found() {
    let mut reg = ServerRegistry::new();
    assert!(matches!(
        HexoProject::stop_server(&mut reg, "/never-started"),
        Err(Error::ServerNotFound)
    ));
}

#[test]
fn running_state_cycles_with_start_and_stop() {
    let mut reg = ServerRegistry::new();
    let project = HexoProject::new("/proj".to_string());
    assert!(!project.is_server_running(&reg));
    project.start_server(&mut reg, 7).unwrap();
    assert!(project.is_server_running(&reg));
    let handle = HexoProject::stop_server(&mut reg, "/proj").unwrap();
    assert_eq!(handle, 7);
    assert!(!project.is_server_running(&reg));
}

#[test]
fn registries_keep_projects_independent() {
    let mut reg = ServerRegistry::new();
    let a = HexoProject::new("/a".to_string());
    let b = HexoProject::new("/b".to_string());
    a.start_server(&mut reg, 1).unwrap();
    b.start_server(&mut reg, 2).unwrap();
    HexoProject::stop_server(&mut reg, "/a").unwrap();
    assert!(!a.is_server_running(&reg));
    assert!(b.is_server_running(&reg));
}

#[test]
fn command_output_from_failing_generator() {
    let out = CommandOutput::from_status(Some(1), String::new(), "boom".to_string());
    assert!(!out.success);
    assert_eq!(out.exit_code, 1);
    assert_eq!(out.stderr, "boom");
    assert_eq!(out.stdout, "");
}

#[test]
fn command_output_success_and_signal() {
    let ok = CommandOutput::from_status(Some(0), "done".to_string(), String::new());
    assert!(ok.success);
    assert_eq!(ok.exit_code, 0);
    assert_eq!(ok.stdout, "done");
    let killed = CommandOutput::from_status(None, String::new(), String::new());
    assert!(!killed.success);
    assert_eq!(killed.exit_code, -1);
}

#[test]
fn validate_needs_config_and_source() {
    let project = HexoProject::new("/proj".to_string());
    assert_eq!(project.validate(true, true).unwrap(), true);
    match project.validate(false, true) {
        Err(Error::Io(msg)) => assert_eq!(msg, "_config.yml not found"),
        other => panic!("unexpected outcome: {:?}", other),
    }
    match project.validate(true, false) {
        Err(Error::Io(msg)) => assert_eq!(msg, "source/ directory not found"),
        other => panic!("unexpected outcome: {:?}", other),
    }
}

#[test]
fn project_directories() {
    let project = HexoProject::new("/proj".to_string());
    assert_eq!(project.get_posts_dir(), "/proj/source/_posts");
    assert_eq!(project.get_pages_dir(), "/proj/source");
    assert_eq!(project.get_images_dir(), "/proj/source/images");
}
