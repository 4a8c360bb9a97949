use skagit_flats::app::{frame_changed, next_frame_action, record_push, AppOptions, FrameAction};

#[test]
fn default_options() {
    let opts = AppOptions::default();
    assert_eq!(opts.config_path, "config.toml");
}

#[test]
fn parse_cli_flags() {
    let args = vec![
        "skagit-flats".to_string(),
        "--no-hardware".to_string(),
        "--config".to_string(),
        "/tmp/config.toml".to_string(),
    ];
    let opts = AppOptions::from_args(args, false);
    assert!(opts.no_hardware);
    assert_eq!(opts.config_path, "/tmp/config.toml");
}

#[test]
fn unknown_flags_ignored() {
    let args = vec!["skagit-flats".to_string(), "--future-flag".to_string()];
    let opts = AppOptions::from_args(args, false);
    assert!(!opts.no_hardware);
}

#[test]
fn environment_disables_hardware() {
    let opts = AppOptions::from_args(vec!["skagit-flats".to_string()], true);
    assert!(opts.no_hardware);
    assert_eq!(opts.config_path, "config.toml");
}

#[test]
fn trailing_config_flag_keeps_default_path() {
    let args = vec!["skagit-flats".to_string(), "--config".to_string()];
    let opts = AppOptions::from_args(args, false);
    assert_eq!(opts.config_path, "config.toml");
    assert!(!opts.no_hardware);
}

#[test]
fn program_name_is_not_a_flag() {
    let args = vec!["--no-hardware".to_string()];
    let opts = AppOptions::from_args(args, false);
    assert!(!opts.no_hardware);
}

#[test]
fn config_value_is_not_read_as_a_flag() {
    let args = vec![
        "skagit-flats".to_string(),
        "--config".to_string(),
        "--no-hardware".to_string(),
    ];
    let opts = AppOptions::from_args(args, false);
    assert!(!opts.no_hardware);
    assert_eq!(opts.config_path, "--no-hardware");
}

#[test]
fn first_frame_is_always_pushed() {
    assert!(frame_changed(&None, &vec![0u8, 1, 2]));
}

#[test]
fn identical_frame_is_skipped() {
    let last = Some(vec![0u8, 255, 7]);
    assert!(!frame_changed(&last, &vec![0u8, 255, 7]));
}

#[test]
fn changed_frame_is_pushed() {
    let last = Some(vec![0u8, 255, 7]);
    assert!(frame_changed(&last, &vec![0u8, 255, 6]));
    assert!(frame_changed(&last, &vec![0u8, 255]));
}

#[test]
fn display_loop_keeps_the_last_good_frame() {
    let mut last: Option<Vec<u8>> = None;
    assert_eq!(next_frame_action(&last, &None), FrameAction::KeepLast);
    let a = vec![1u8, 2, 3];
    assert_eq!(next_frame_action(&last, &Some(a.clone())), FrameAction::Push);
    record_push(&mut last, a.clone(), true);
    assert_eq!(last, Some(a.clone()));
    assert_eq!(next_frame_action(&last, &Some(a.clone())), FrameAction::Unchanged);
    assert_eq!(next_frame_action(&last, &None), FrameAction::KeepLast);
    let b = vec![1u8, 2, 4];
    assert_eq!(next_frame_action(&last, &Some(b.clone())), FrameAction::Push);
    record_push(&mut last, b, false);
    assert_eq!(last, Some(a));
}
