use compose_rs::command::{
    ComposeCommandArgs, DownArgs, RemoveOptions, ScaleArgs, StartArgs, UpArgs,
};
use compose_rs::error::ComposeBuilderError;
use compose_rs::{Compose, ComposeBuilder};

#[test]
fn down_args_render() {
    assert_eq!(DownArgs::RemoveVolumes.args(), vec!["-v".to_string()]);
    assert_eq!(DownArgs::RemoveOrphans.args(), vec!["--remove-orphans".to_string()]);
    assert_eq!(
        DownArgs::RemoveImages(RemoveOptions::Local).args(),
        vec!["--rmi".to_string(), "local".to_string()]
    );
    assert_eq!(
        DownArgs::RemoveImages(RemoveOptions::All).args(),
        vec!["--rmi".to_string(), "all".to_string()]
    );
    assert_eq!(
        DownArgs::Timeout(30).args(),
        vec!["--timeout".to_string(), "30".to_string()]
    );
    assert_eq!(
        DownArgs::Timeout(0).args(),
        vec!["--timeout".to_string(), "0".to_string()]
    );
}

#[test]
fn up_args_render() {
    assert_eq!(
        UpArgs::Scale("web".to_string(), 3).args(),
        vec!["--scale".to_string(), "web=3".to_string()]
    );
    assert_eq!(UpArgs::Wait.args(), vec!["--wait".to_string()]);
}

#[test]
fn scale_args_render() {
    assert_eq!(ScaleArgs::NoDeps.args(), vec!["--no-deps".to_string()]);
    assert_eq!(
        ScaleArgs::Service(12, "db".to_string()).args(),
        vec!["db=12".to_string()]
    );
}

#[test]
fn start_args_render() {
    assert_eq!(StartArgs::DryRun.args(), vec!["--dry-run".to_string()]);
}

#[test]
fn unit_args_render_nothing() {
    let words = ().args();
    assert!(words.is_empty());
}

#[test]
fn builder_without_path_reports_the_missing_field() {
    let r = Compose::builder().take_path();
    match r {
        Err(ComposeBuilderError::MissingField(f)) => assert_eq!(f, "path"),
        other => panic!("expected a missing field, got {:?}", other),
    }
}

#[test]
fn builder_keeps_the_configured_path() {
    let r = ComposeBuilder::new().path("docker-compose.yml").take_path();
    assert_eq!(r.unwrap(), "docker-compose.yml");
}

#[test]
fn compose_wraps_a_path() {
    let c = Compose::at_path("/tmp/compose.yml".to_string());
    assert_eq!(c.path, "/tmp/compose.yml");
}
