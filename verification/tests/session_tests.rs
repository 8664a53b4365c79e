use mazecast::session::{LevelSession, Phase};

fn goal_at_3_3() -> Vec<(usize, usize)> {
    vec![(3, 3)]
}

#[test]
fn start_banner_then_playing_resets_countdown() {
    let mut s = LevelSession::new(20, 3, goal_at_3_3(), 0);
    assert_eq!(s.phase, Phase::Start);
    s.step(2, 1, 1);
    assert_eq!(s.phase, Phase::Start);
    s.step(3, 1, 1);
    assert_eq!(s.phase, Phase::Playing);
    assert_eq!(s.phase_start, 3);
}

#[test]
fn clears_on_exact_frame_within_goal_distance() {
    // 5x5 night: start at (1,1), goal at (3,3); the session clears on
    // the first frame the player's cell is within grid distance 2
    let mut s = LevelSession::new(20, 3, goal_at_3_3(), 0);
    s.step(3, 1, 1);
    assert_eq!(s.phase, Phase::Playing);
    // (1,1) is at squared distance 8 from (3,3): not yet
    s.step(4, 1, 1);
    assert_eq!(s.phase, Phase::Playing);
    // (2,2) is at squared distance 2 <= 4: cleared on this exact frame
    s.step(5, 2, 2);
    assert_eq!(s.phase, Phase::Cleared);
    assert_eq!(s.phase_start, 5);
    assert!(!s.cleared_done(6));
    assert!(s.cleared_done(8));
}

#[test]
fn loses_when_elapsed_first_reaches_duration() {
    // duration of 1 time unit, no movement, no goal reached
    let mut s = LevelSession::new(1, 3, goal_at_3_3(), 0);
    s.step(3, 1, 1);
    assert_eq!(s.phase, Phase::Playing);
    assert_eq!(s.phase_start, 3);
    s.step(3, 1, 1);
    assert_eq!(s.phase, Phase::Playing);
    s.step(4, 1, 1);
    assert_eq!(s.phase, Phase::Lost);
    assert_eq!(s.phase_start, 4);
}

#[test]
fn goal_on_boundary_distance_counts_as_reached() {
    let mut s = LevelSession::new(20, 0, goal_at_3_3(), 0);
    s.step(0, 1, 1);
    assert_eq!(s.phase, Phase::Playing);
    // (1,3) is at squared distance exactly 4: on the threshold
    s.step(1, 1, 3);
    assert_eq!(s.phase, Phase::Cleared);
}

#[test]
fn game_over_restart_and_quit() {
    let mut s = LevelSession::new(1, 0, goal_at_3_3(), 0);
    s.step(0, 1, 1);
    s.step(1, 1, 1);
    assert_eq!(s.phase, Phase::Lost);
    assert!(!s.game_over_input(7, false, false));
    assert_eq!(s.phase, Phase::Lost);
    assert!(s.game_over_input(7, false, true));
    assert_eq!(s.phase, Phase::Lost);
    assert!(!s.game_over_input(9, true, false));
    assert_eq!(s.phase, Phase::Start);
    assert_eq!(s.phase_start, 9);
}

#[test]
fn inputs_ignored_outside_game_over() {
    let mut s = LevelSession::new(20, 3, goal_at_3_3(), 0);
    assert!(!s.game_over_input(1, true, true));
    assert_eq!(s.phase, Phase::Start);
    assert_eq!(s.phase_start, 0);
}
