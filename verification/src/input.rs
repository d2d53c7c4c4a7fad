//! Pointer state: which button or pen holds the canvas, and what a pointer
//! event means for the stroke in progress.

use vstd::prelude::*;
use crate::geometry::Point;
use crate::pen::PRESSURE_ONE;
use crate::canvas::StrokeInput;

verus! {

/// A mouse button.
#[derive(Clone, Copy, Debug, PartialEq, Eq, Structural)]
pub enum MouseButton {
    Left,
    Right,
    Middle,
    Other(u16),
}

/// What presses on the canvas.
#[derive(Clone, Copy, Debug, PartialEq, Eq, Structural)]
pub enum Press {
    Mouse(MouseButton),
    Pen,
}

impl Press {
    /// The press of a mouse button.
    pub fn from_button(button: MouseButton) -> (press: Press)
        ensures
            press == Press::Mouse(button),
    {
        Press::Mouse(button)
    }
}

/// Which mouse button drags, if any, and whether the pen is down.
#[derive(Clone, Copy, Debug, PartialEq, Eq, Structural)]
pub struct InputState {
    pub mouse_press: Option<MouseButton>,
    pub pen_press: bool,
}

impl InputState {
    /// Nothing is pressed.
    pub fn new() -> (state: Self)
        ensures
            state == (InputState { mouse_press: None, pen_press: false }),
    {
        InputState { mouse_press: None, pen_press: false }
    }

    /// A button went down. It starts a drag, and the result is `true`, where
    /// no button was dragging; else the drag in progress goes on.
    pub fn handle_mouse_pressed(&mut self, button: MouseButton) -> (started: bool)
        ensures
            started == (old(self).mouse_press is None),
            final(self).mouse_press == if started {
                Some(button)
            } else {
                old(self).mouse_press
            },
            final(self).pen_press == old(self).pen_press,
    {
        match self.mouse_press {
            None => {
                self.mouse_press = Some(button);
                true
            },
            Some(_) => false,
        }
    }

    /// A button went up. It ends the drag, and the result is `true`, where it
    /// is the button that was dragging.
    pub fn handle_mouse_released(&mut self, button: MouseButton) -> (ended: bool)
        ensures
            ended == (old(self).mouse_press == Some(button)),
            final(self).mouse_press == if ended {
                None
            } else {
                old(self).mouse_press
            },
            final(self).pen_press == old(self).pen_press,
    {
        if self.is_mouse_dragging(button) {
            self.mouse_press = None;
            true
        } else {
            false
        }
    }

    /// Whether `button` is the one dragging.
    pub fn is_mouse_dragging(&self, button: MouseButton) -> (dragging: bool)
        ensures
            dragging == (self.mouse_press == Some(button)),
    {
        match self.mouse_press {
            None => false,
            Some(held) => held == button,
        }
    }

    /// The pen touched down. The result says whether it was up before.
    pub fn handle_pen_pressed(&mut self) -> (was_up: bool)
        ensures
            was_up == !old(self).pen_press,
            final(self).pen_press,
            final(self).mouse_press == old(self).mouse_press,
    {
        let was_down: bool = self.pen_press;
        self.pen_press = true;
        !was_down
    }

    /// The pen lifted. The result says whether it was up already.
    pub fn handle_pen_released(&mut self) -> (was_up: bool)
        ensures
            was_up == !old(self).pen_press,
            !final(self).pen_press,
            final(self).mouse_press == old(self).mouse_press,
    {
        let was_down: bool = self.pen_press;
        self.pen_press = false;
        !was_down
    }

    /// Whether the pen is down.
    pub fn is_pen_pressed(&self) -> (pressed: bool)
        ensures
            pressed == self.pen_press,
    {
        self.pen_press
    }
}

/// What a tablet reports.
#[derive(Clone, Copy, Debug, PartialEq, Eq, Structural)]
pub enum TabletEvent {
    /// The pen touched the tablet.
    Down,
    /// The pen left the tablet.
    Up,
    /// The pen moved to a position on the canvas.
    Motion(Point),
    /// A raw pressure reading, `PRESSURE_ONE` for full pressure.
    Pressure(i64),
}

/// The pointer as the canvas's input sees it.
#[derive(Clone, Copy, Debug, PartialEq, Eq, Structural)]
pub struct PenInput {
    pub input_state: InputState,
    /// The latest pressure reading of the pen.
    pub current_pressure: i64,
}

impl PenInput {
    /// The pointer after a mouse button event.
    pub open spec fn after_mouse_button(self, pressed: bool, button: MouseButton) -> PenInput {
        let held = self.input_state.mouse_press;
        let next = if pressed {
            if held is None {
                Some(button)
            } else {
                held
            }
        } else {
            if held == Some(button) {
                None
            } else {
                held
            }
        };
        PenInput {
            input_state: InputState { mouse_press: next, pen_press: self.input_state.pen_press },
            current_pressure: self.current_pressure,
        }
    }

    /// What a mouse button event means for the stroke: the left button
    /// starts one where it starts a drag, and ends it where it ends its drag.
    pub open spec fn mouse_button_input(self, pressed: bool, button: MouseButton) -> Option<
        StrokeInput,
    > {
        let held = self.input_state.mouse_press;
        if button != MouseButton::Left {
            None
        } else if pressed && held is None {
            Some(StrokeInput::StrokeStart)
        } else if !pressed && held == Some(MouseButton::Left) {
            Some(StrokeInput::StrokeEnd)
        } else {
            None
        }
    }

    /// What a move of the mouse means for the stroke: a sample at full
    /// pressure while the left button drags.
    pub open spec fn mouse_moved_input(self, position: Point) -> Option<StrokeInput> {
        if self.input_state.mouse_press == Some(MouseButton::Left) {
            Some(StrokeInput::StrokeMove(position, PRESSURE_ONE as i64))
        } else {
            None
        }
    }

    /// The pointer after a tablet event.
    pub open spec fn after_tablet(self, tablet: TabletEvent) -> PenInput {
        match tablet {
            TabletEvent::Down => PenInput {
                input_state: InputState {
                    mouse_press: self.input_state.mouse_press,
                    pen_press: true,
                },
                current_pressure: self.current_pressure,
            },
            TabletEvent::Up => PenInput {
                input_state: InputState {
                    mouse_press: self.input_state.mouse_press,
                    pen_press: false,
                },
                current_pressure: self.current_pressure,
            },
            TabletEvent::Motion(_) => self,
            TabletEvent::Pressure(pressure) => PenInput {
                input_state: self.input_state,
                current_pressure: pressure,
            },
        }
    }

    /// What a tablet event means for the stroke: touching starts one,
    /// lifting ends it, and a move while the pen is down is a sample at the
    /// latest pressure.
    pub open spec fn tablet_input(self, tablet: TabletEvent) -> Option<StrokeInput> {
        match tablet {
            TabletEvent::Down => Some(StrokeInput::StrokeStart),
            TabletEvent::Up => Some(StrokeInput::StrokeEnd),
            TabletEvent::Motion(position) => if self.input_state.pen_press {
                Some(StrokeInput::StrokeMove(position, self.current_pressure))
            } else {
                None
            },
            TabletEvent::Pressure(_) => None,
        }
    }

    /// A pointer with nothing pressed and no pressure.
    pub fn new() -> (pointer: Self)
        ensures
            pointer == (PenInput {
                input_state: InputState { mouse_press: None, pen_press: false },
                current_pressure: 0,
            }),
    {
        PenInput { input_state: InputState::new(), current_pressure: 0 }
    }

    /// Takes a mouse button event.
    pub fn handle_mouse_button(&mut self, pressed: bool, button: MouseButton) -> (input: Option<
        StrokeInput,
    >)
        ensures
            *final(self) == old(self).after_mouse_button(pressed, button),
            input == old(self).mouse_button_input(pressed, button),
    {
        let is_left: bool = button == MouseButton::Left;
        if pressed {
            let drag_start: bool = self.input_state.handle_mouse_pressed(button);
            if is_left && drag_start {
                return Some(StrokeInput::StrokeStart);
            }
        } else {
            let drag_end: bool = self.input_state.handle_mouse_released(button);
            if is_left && drag_end {
                return Some(StrokeInput::StrokeEnd);
            }
        }
        None
    }

    /// Takes a move of the mouse to a position on the canvas.
    pub fn handle_mouse_moved(&self, position: Point) -> (input: Option<StrokeInput>)
        ensures
            input == self.mouse_moved_input(position),
    {
        if self.input_state.is_mouse_dragging(MouseButton::Left) {
            Some(StrokeInput::StrokeMove(position, 65536))
        } else {
            None
        }
    }

    /// Takes a tablet event.
    pub fn handle_tablet(&mut self, tablet: TabletEvent) -> (input: Option<StrokeInput>)
        ensures
            *final(self) == old(self).after_tablet(tablet),
            input == old(self).tablet_input(tablet),
    {
        match tablet {
            TabletEvent::Down => {
                self.input_state.handle_pen_pressed();
                Some(StrokeInput::StrokeStart)
            },
            TabletEvent::Up => {
                self.input_state.handle_pen_released();
                Some(StrokeInput::StrokeEnd)
            },
            TabletEvent::Motion(position) => {
                if self.input_state.is_pen_pressed() {
                    Some(StrokeInput::StrokeMove(position, self.current_pressure))
                } else {
                    None
                }
            },
            TabletEvent::Pressure(pressure) => {
                self.current_pressure = pressure;
                None
            },
        }
    }
}

/// Between a press of the left button that starts a drag and the release
/// that ends it, every move of the mouse is a sample, and no other button
/// starts or ends a stroke.
pub proof fn lemma_left_drag_draws(pointer: PenInput, position: Point, other: MouseButton)
    requires
        pointer.input_state.mouse_press is None,
        other != MouseButton::Left,
    ensures
        pointer.mouse_button_input(true, MouseButton::Left) == Some(StrokeInput::StrokeStart),
        ({
            let dragging = pointer.after_mouse_button(true, MouseButton::Left);
            &&& dragging.mouse_moved_input(position) == Some(
                StrokeInput::StrokeMove(position, PRESSURE_ONE as i64),
            )
            &&& dragging.mouse_button_input(true, other) is None
            &&& dragging.mouse_button_input(false, other) is None
            &&& dragging.after_mouse_button(true, other) == dragging
            &&& dragging.after_mouse_button(false, other) == dragging
            &&& dragging.mouse_button_input(false, MouseButton::Left) == Some(
                StrokeInput::StrokeEnd,
            )
            &&& dragging.after_mouse_button(false, MouseButton::Left) == pointer
        }),
{
}

} // verus!
