use puzzle_physics::levels::initialize_false;
use puzzle_physics::tick::{beam_step, sweep_turn, BeamStep, SweepTurn};

#[test]
fn beam_hitting_the_player_comes_first() {
    assert_eq!(beam_step(&vec![true, true]), BeamStep::HitsPlayer);
    assert_eq!(beam_step(&vec![true]), BeamStep::HitsPlayer);
}

#[test]
fn beam_stops_at_other_entities() {
    assert_eq!(beam_step(&vec![false, false, true]), BeamStep::Blocked);
    assert_eq!(beam_step(&vec![false, true, false]), BeamStep::Blocked);
}

#[test]
fn beam_in_the_open_advances() {
    assert_eq!(beam_step(&vec![false, false]), BeamStep::Advance);
    assert_eq!(beam_step(&vec![]), BeamStep::Advance);
}

#[test]
fn sweep_reverses_once_past_its_range() {
    assert_eq!(sweep_turn(false, true), SweepTurn { reverse: true, is_out: true });
    assert_eq!(sweep_turn(true, true), SweepTurn { reverse: false, is_out: false });
    assert_eq!(sweep_turn(false, false), SweepTurn { reverse: false, is_out: false });
    assert_eq!(sweep_turn(true, false), SweepTurn { reverse: false, is_out: false });
}

#[test]
fn omitted_level_flags_are_false() {
    assert!(!initialize_false());
}
