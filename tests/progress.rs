use puzzle_physics::progress::{level_index, Progress, Restart, FULL_JUMPS};

#[test]
fn level_index_reads_the_digit_after_the_word() {
    assert_eq!(level_index("level5.ron"), Some(5));
    assert_eq!(level_index("level0"), Some(0));
    assert_eq!(level_index("levellevel3.ron"), Some(3));
    assert_eq!(level_index("7.ron"), Some(7));
}

#[test]
fn level_index_without_digit_is_none() {
    assert_eq!(level_index("level"), None);
    assert_eq!(level_index("levelx.ron"), None);
    assert_eq!(level_index(""), None);
    assert_eq!(level_index("lev5"), None);
}

#[test]
fn jumps_run_out_and_refill() {
    let mut p = Progress::new("level5.ron".to_string());
    assert_eq!(p.jumps_left(), FULL_JUMPS);
    assert!(p.jump());
    assert!(p.jump());
    assert!(!p.jump());
    assert_eq!(p.jumps_left(), 0);
    p.refill_jumps();
    assert_eq!(p.jumps_left(), 2);
}

#[test]
fn restart_leaves_nested_levels_then_respawns() {
    let mut p = Progress::new("level5.ron".to_string());
    p.enter_level("level3.ron".to_string());
    assert_eq!(p.current_level(), "level3.ron");
    assert_eq!(p.level_index(), Some(3));
    match p.restart() {
        Restart::Reload(name) => assert_eq!(name, "level5.ron"),
        Restart::Respawn => panic!("a nested level must be left"),
    }
    assert_eq!(p.current_level(), "level5.ron");
    assert!(matches!(p.restart(), Restart::Respawn));
    assert_eq!(p.current_level(), "level5.ron");
    assert_eq!(p.level_index(), Some(5));
}

#[test]
fn entering_a_level_refills_jumps() {
    let mut p = Progress::new("level1.ron".to_string());
    assert!(p.jump());
    p.enter_level("level2.ron".to_string());
    assert_eq!(p.jumps_left(), 2);
}

#[test]
fn end_tick_restarts_then_refills() {
    let mut p = Progress::new("level5.ron".to_string());
    p.enter_level("level2.ron".to_string());
    assert!(p.jump());
    assert!(p.jump());
    match p.end_tick(true, true) {
        Some(Restart::Reload(name)) => assert_eq!(name, "level5.ron"),
        _ => panic!("a nested level must be left"),
    }
    assert_eq!(p.jumps_left(), 2);
    assert!(matches!(p.end_tick(true, false), Some(Restart::Respawn)));
    assert!(p.jump());
    assert!(p.end_tick(false, false).is_none());
    assert_eq!(p.jumps_left(), 1);
    assert_eq!(p.current_level(), "level5.ron");
}
