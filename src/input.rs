//! Discrete decisions of the input layer: which tool is active, what a key or
//! a click asks for, and what a finished crayon stroke becomes.
use vstd::prelude::*;

verus! {

/// The tool the left mouse button works with.
#[derive(Clone, Copy, Debug, PartialEq, Eq, Structural)]
pub enum Tool {
    Crayon,
    Rigid,
    Hinge,
    Eraser,
}

/// The keys the game reacts to.
#[derive(Clone, Copy, Debug, PartialEq, Eq, Structural)]
pub enum Key {
    A,
    S,
    D,
    P,
    O,
    L,
    N,
    Other,
}

/// What a left click at a point asks of the simulation.
#[derive(Clone, Copy, Debug, PartialEq, Eq, Structural)]
pub enum PointCommand {
    Erase,
    Hinge,
    Rigid,
}

/// What a key asks of the level editor.
#[derive(Clone, Copy, Debug, PartialEq, Eq, Structural)]
pub enum EditorAction {
    Nothing,
    RemoveLastShape,
    ToggleDeadly,
    ToggleFragile,
    AddQuadCorner,
}

/// What a finished crayon stroke becomes.
#[derive(Clone, Copy, Debug, PartialEq, Eq, Structural)]
pub enum StrokeEnd {
    /// The button was held still: a circle.
    Circle,
    /// A long enough line: the hull of its points.
    Polygon,
    /// Too short a line: dropped.
    Discard,
}

/// A line needs more points than this to become a polygon.
pub const MIN_STROKE_POINTS: usize = 20;

/// Corners that make a free quad.
pub const QUAD_CORNERS: usize = 4;

impl Tool {
    /// Holding A, D or S selects the eraser, the hinge or the rigid tool;
    /// letting go of any of them returns to the crayon; other keys keep the
    /// tool.
    pub fn after_key(self, key: Key, pressed: bool) -> (r: Tool)
        ensures
            pressed && key == Key::A ==> r == Tool::Eraser,
            pressed && key == Key::D ==> r == Tool::Hinge,
            pressed && key == Key::S ==> r == Tool::Rigid,
            !pressed && (key == Key::A || key == Key::S || key == Key::D) ==> r == Tool::Crayon,
            !(key == Key::A || key == Key::S || key == Key::D) ==> r == self,
    {
        match key {
            Key::A => if pressed {
                Tool::Eraser
            } else {
                Tool::Crayon
            },
            Key::D => if pressed {
                Tool::Hinge
            } else {
                Tool::Crayon
            },
            Key::S => if pressed {
                Tool::Rigid
            } else {
                Tool::Crayon
            },
            _ => self,
        }
    }

    /// A left click with the eraser, hinge or rigid tool sends that command
    /// at the pointer; the crayon sends none on a click.
    pub fn click(self) -> (r: Option<PointCommand>)
        ensures
            self == Tool::Eraser ==> r == Some(PointCommand::Erase),
            self == Tool::Hinge ==> r == Some(PointCommand::Hinge),
            self == Tool::Rigid ==> r == Some(PointCommand::Rigid),
            self == Tool::Crayon ==> r.is_none(),
    {
        match self {
            Tool::Eraser => Some(PointCommand::Erase),
            Tool::Hinge => Some(PointCommand::Hinge),
            Tool::Rigid => Some(PointCommand::Rigid),
            Tool::Crayon => None,
        }
    }
}

/// On release, P removes the last level shape, O and L toggle whether new
/// level shapes are deadly or fragile, N adds a corner of a free quad.
pub fn editor_action(key: Key, pressed: bool) -> (r: EditorAction)
    ensures
        !pressed && key == Key::P ==> r == EditorAction::RemoveLastShape,
        !pressed && key == Key::O ==> r == EditorAction::ToggleDeadly,
        !pressed && key == Key::L ==> r == EditorAction::ToggleFragile,
        !pressed && key == Key::N ==> r == EditorAction::AddQuadCorner,
        pressed || !(key == Key::P || key == Key::O || key == Key::L || key == Key::N) ==> r
            == EditorAction::Nothing,
{
    if pressed {
        return EditorAction::Nothing;
    }
    match key {
        Key::P => EditorAction::RemoveLastShape,
        Key::O => EditorAction::ToggleDeadly,
        Key::L => EditorAction::ToggleFragile,
        Key::N => EditorAction::AddQuadCorner,
        _ => EditorAction::Nothing,
    }
}

/// A crayon stroke ends: a press held in place draws a circle, a line of more
/// than `MIN_STROKE_POINTS` points a polygon, a shorter one nothing.
pub fn stroke_end(is_holding: bool, points: usize) -> (r: StrokeEnd)
    ensures
        is_holding ==> r == StrokeEnd::Circle,
        !is_holding && points > MIN_STROKE_POINTS ==> r == StrokeEnd::Polygon,
        !is_holding && points <= MIN_STROKE_POINTS ==> r == StrokeEnd::Discard,
{
    if is_holding {
        StrokeEnd::Circle
    } else if points > MIN_STROKE_POINTS {
        StrokeEnd::Polygon
    } else {
        StrokeEnd::Discard
    }
}

/// With one more corner added to `corners` already placed, whether the quad is
/// complete and goes out as a level shape.
pub fn quad_complete(corners: usize) -> (r: bool)
    requires
        corners < QUAD_CORNERS,
    ensures
        r == (corners + 1 == QUAD_CORNERS),
{
    corners + 1 == QUAD_CORNERS
}

} // verus!
