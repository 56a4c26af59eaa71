use vantamorph::{
    get_default_preset_name, CancelFlag, CompareView, JobManager, PlaybackSpeed, RightPanelTab,
    UiMode,
};

#[test]
fn preset_name_strips_the_extension() {
    assert_eq!(get_default_preset_name("photo.png".to_string()), "photo");
    assert_eq!(get_default_preset_name("archive.tar.gz".to_string()), "archive.tar");
    assert_eq!(get_default_preset_name("plain".to_string()), "plain");
}

#[test]
fn preset_name_keeps_a_leading_dot() {
    assert_eq!(get_default_preset_name(".hidden".to_string()), ".hidden");
    assert_eq!(get_default_preset_name(".x".to_string()), ".x");
}

#[test]
fn preset_name_falls_back_to_untitled() {
    assert_eq!(get_default_preset_name(String::new()), "untitled");
}

#[test]
fn preset_name_is_capped_at_twenty_characters() {
    assert_eq!(
        get_default_preset_name("abcdefghijklmnopqrstuvwxyz.jpeg".to_string()),
        "abcdefghijklmnopqrst"
    );
    assert_eq!(
        get_default_preset_name("abcdefghijklmnopqrstuvwxyz".to_string()),
        "abcdefghijklmnopqrst"
    );
}

#[test]
fn playback_speed_labels_and_multipliers() {
    assert_eq!(PlaybackSpeed::Quarter.label(), "0.25\u{d7}");
    assert_eq!(PlaybackSpeed::Half.label(), "0.5\u{d7}");
    assert_eq!(PlaybackSpeed::Normal.label(), "1\u{d7}");
    assert_eq!(PlaybackSpeed::Double.label(), "2\u{d7}");
    assert_eq!(PlaybackSpeed::Quarter.multiplier_percent(), 25);
    assert_eq!(PlaybackSpeed::Half.multiplier_percent(), 50);
    assert_eq!(PlaybackSpeed::Normal.multiplier_percent(), 100);
    assert_eq!(PlaybackSpeed::Double.multiplier_percent(), 200);
    assert_eq!(PlaybackSpeed::default(), PlaybackSpeed::Normal);
}

#[test]
fn view_state_defaults() {
    assert_eq!(UiMode::default(), UiMode::Simple);
    assert_eq!(RightPanelTab::default(), RightPanelTab::Presets);
    assert_eq!(CompareView::default(), CompareView::Off);
}

#[test]
fn cancel_flag_is_shared() {
    let flag = CancelFlag::new();
    assert!(!flag.is_set());
    let remote = flag.share();
    assert!(!remote.is_set());
    flag.request();
    assert!(remote.is_set());
}

#[test]
fn job_manager_replaces_and_cancels_the_previous_job() {
    let mut m = JobManager::new();
    let first = m.begin_job();
    assert!(m.accepts(first.id));
    assert!(!first.flag.is_set());

    // a new request supersedes the old job and raises its flag
    let second = m.begin_job();
    assert!(first.flag.is_set());
    assert!(!second.flag.is_set());
    assert!(m.accepts(second.id));
    assert!(!m.accepts(first.id));

    // cancelling reaches the live worker's flag
    m.cancel_active();
    assert!(second.flag.is_set());

    // a terminal message of a superseded job leaves the slot alone
    m.finish(first.id);
    assert!(m.accepts(second.id));
    m.finish(second.id);
    assert!(!m.accepts(second.id));
}
