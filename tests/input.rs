use puzzle_physics::input::{
    editor_action, quad_complete, stroke_end, EditorAction, Key, PointCommand, StrokeEnd, Tool,
};

#[test]
fn holding_keys_selects_tools() {
    assert_eq!(Tool::Crayon.after_key(Key::A, true), Tool::Eraser);
    assert_eq!(Tool::Crayon.after_key(Key::D, true), Tool::Hinge);
    assert_eq!(Tool::Eraser.after_key(Key::S, true), Tool::Rigid);
}

#[test]
fn releasing_tool_keys_returns_to_crayon() {
    assert_eq!(Tool::Rigid.after_key(Key::S, false), Tool::Crayon);
    assert_eq!(Tool::Hinge.after_key(Key::A, false), Tool::Crayon);
}

#[test]
fn other_keys_keep_the_tool() {
    assert_eq!(Tool::Hinge.after_key(Key::P, false), Tool::Hinge);
    assert_eq!(Tool::Eraser.after_key(Key::Other, true), Tool::Eraser);
    assert_eq!(Tool::Rigid.after_key(Key::N, true), Tool::Rigid);
}

#[test]
fn clicks_send_the_tool_command() {
    assert_eq!(Tool::Eraser.click(), Some(PointCommand::Erase));
    assert_eq!(Tool::Hinge.click(), Some(PointCommand::Hinge));
    assert_eq!(Tool::Rigid.click(), Some(PointCommand::Rigid));
    assert_eq!(Tool::Crayon.click(), None);
}

#[test]
fn editor_keys_act_on_release() {
    assert_eq!(editor_action(Key::P, false), EditorAction::RemoveLastShape);
    assert_eq!(editor_action(Key::O, false), EditorAction::ToggleDeadly);
    assert_eq!(editor_action(Key::L, false), EditorAction::ToggleFragile);
    assert_eq!(editor_action(Key::N, false), EditorAction::AddQuadCorner);
    assert_eq!(editor_action(Key::P, true), EditorAction::Nothing);
    assert_eq!(editor_action(Key::A, false), EditorAction::Nothing);
}

#[test]
fn strokes_become_circles_polygons_or_nothing() {
    assert_eq!(stroke_end(true, 100), StrokeEnd::Circle);
    assert_eq!(stroke_end(false, 21), StrokeEnd::Polygon);
    assert_eq!(stroke_end(false, 20), StrokeEnd::Discard);
    assert_eq!(stroke_end(false, 0), StrokeEnd::Discard);
}

#[test]
fn fourth_corner_completes_a_quad() {
    assert!(!quad_complete(0));
    assert!(!quad_complete(2));
    assert!(quad_complete(3));
}
