use n_body::start_screen::param_edit::{
    is_distribution_file, refresh_due, update_kill_dist, REFRESH_FRAMES,
};

#[test]
fn refresh_due_at_zero_restarts_countdown() {
    let mut t = 0u16;
    assert!(refresh_due(&mut t));
    assert_eq!(t, REFRESH_FRAMES);
}

#[test]
fn refresh_not_due_counts_down() {
    let mut t = 5u16;
    assert!(!refresh_due(&mut t));
    assert_eq!(t, 4);
}

#[test]
fn refresh_happens_every_101_frames() {
    let mut t = 0u16;
    let due: Vec<usize> = (0..400).filter(|_| refresh_due(&mut t)).collect();
    assert_eq!(due, vec![0, 101, 202, 303]);
}

#[test]
fn ron_files_are_distribution_files() {
    assert!(is_distribution_file("belt.ron"));
    assert!(is_distribution_file("plain.ron"));
    assert!(is_distribution_file("my.belt.ron"));
    assert!(is_distribution_file(".hidden.ron"));
}

#[test]
fn settings_and_other_files_are_not() {
    assert!(!is_distribution_file("settings.ron"));
    assert!(!is_distribution_file("belt.txt"));
    assert!(!is_distribution_file("belt.ron.bak"));
    assert!(!is_distribution_file(".ron"));
    assert!(!is_distribution_file("ron"));
    assert!(!is_distribution_file("belt."));
    assert!(!is_distribution_file(""));
    assert!(!is_distribution_file("belt.RON"));
}

#[test]
fn kill_dist_set_only_when_enabled() {
    let mut setting: Option<f32> = None;
    update_kill_dist(true, 100.0f32, &mut setting);
    assert_eq!(setting, Some(100.0));
    update_kill_dist(false, 100.0f32, &mut setting);
    assert_eq!(setting, None);
    update_kill_dist(true, 3.5f32, &mut setting);
    assert_eq!(setting, Some(3.5));
}
