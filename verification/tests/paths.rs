use std::path::Path;

use bluetooth_tracker::jsonl::{NoFileName, temp_path};
use bluetooth_tracker::paths::{HomeNotSet, TrackerPaths, default_state_dir, default_user_systemd_dir, join_relative};

#[test]
fn tracker_paths_use_fixed_filenames_in_one_directory() {
    let paths = TrackerPaths::new("/tmp/bluetooth state");

    assert_eq!(Path::new(paths.state_dir()), Path::new("/tmp/bluetooth state"));
    assert_eq!(Path::new(&paths.spans_path()), Path::new("/tmp/bluetooth state/spans.jsonl"));
    assert_eq!(Path::new(&paths.actives_path()), Path::new("/tmp/bluetooth state/active.jsonl"));
    assert_eq!(Path::new(&paths.spans_path()).parent(), Path::new(&paths.actives_path()).parent());
}

#[test]
fn joining_adds_one_separator() {
    assert_eq!(join_relative("/tmp/state/", "spans.jsonl"), "/tmp/state/spans.jsonl");
    assert_eq!(join_relative("/tmp/state", "spans.jsonl"), "/tmp/state/spans.jsonl");
    assert_eq!(join_relative("", "spans.jsonl"), "spans.jsonl");
}

#[test]
fn default_state_dir_prefers_xdg_state_home() {
    assert_eq!(
        default_state_dir(Some("/xdg".to_owned()), Some("/home/me".to_owned())),
        Ok("/xdg/keychron-tracker".to_owned())
    );
    assert_eq!(
        default_state_dir(None, Some("/home/me".to_owned())),
        Ok("/home/me/.local/state/keychron-tracker".to_owned())
    );
    assert_eq!(default_state_dir(None, None), Err(HomeNotSet));
    assert_eq!(HomeNotSet.message(), "HOME is not set");
    let paths = TrackerPaths::from_default_state_dir(None, Some("/home/me".to_owned())).unwrap();
    assert_eq!(paths.spans_path(), "/home/me/.local/state/keychron-tracker/spans.jsonl");
}

#[test]
fn default_systemd_dir_prefers_xdg_config_home() {
    assert_eq!(
        default_user_systemd_dir(Some("/cfg".to_owned()), Some("/home/me".to_owned())),
        Ok("/cfg/systemd/user".to_owned())
    );
    assert_eq!(
        default_user_systemd_dir(None, Some("/home/me".to_owned())),
        Ok("/home/me/.config/systemd/user".to_owned())
    );
    assert_eq!(default_user_systemd_dir(None, None), Err(HomeNotSet));
}

#[test]
fn temporary_file_sits_beside_the_state_file() {
    assert_eq!(temp_path("/tmp/state/active.jsonl"), Ok("/tmp/state/active.jsonl.tmp".to_owned()));
    assert_eq!(temp_path("spans.jsonl"), Ok("spans.jsonl.tmp".to_owned()));
    assert_eq!(temp_path("/"), Err(NoFileName));
    assert_eq!(temp_path("/tmp/.."), Err(NoFileName));
}
