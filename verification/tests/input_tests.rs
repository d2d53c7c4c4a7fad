use ink_stroke::canvas::StrokeInput;
use ink_stroke::geometry::Point;
use ink_stroke::input::{InputState, MouseButton, PenInput, Press, TabletEvent};
use ink_stroke::pen::{PenEvent, PRESSURE_ONE};
use ink_stroke::segments::{full_width, mean_pressure, stroke_segments, ActiveStroke, StrokeSegment};
use ink_stroke::pen::FlatCurve;
use ink_stroke::stroke::StrokeInProgress;

fn p(x: i32, y: i32) -> Point {
    Point { x, y }
}

fn ev(x: i32, y: i32, pressure: u32) -> PenEvent {
    PenEvent { pos: p(x, y), pressure, speed: PRESSURE_ONE }
}

#[test]
fn first_button_down_starts_the_drag() {
    let mut state = InputState::new();
    assert!(state.handle_mouse_pressed(MouseButton::Left));
    assert!(state.is_mouse_dragging(MouseButton::Left));
    assert!(!state.handle_mouse_pressed(MouseButton::Right));
    assert!(state.is_mouse_dragging(MouseButton::Left));
    assert!(!state.is_mouse_dragging(MouseButton::Right));
}

#[test]
fn only_the_dragging_button_ends_the_drag() {
    let mut state = InputState::new();
    assert!(!state.handle_mouse_released(MouseButton::Left));
    state.handle_mouse_pressed(MouseButton::Other(7));
    assert!(!state.handle_mouse_released(MouseButton::Other(8)));
    assert!(state.is_mouse_dragging(MouseButton::Other(7)));
    assert!(state.handle_mouse_released(MouseButton::Other(7)));
    assert_eq!(state, InputState::new());
}

#[test]
fn pen_press_reports_whether_it_was_up() {
    let mut state = InputState::new();
    assert!(!state.is_pen_pressed());
    assert!(state.handle_pen_pressed());
    assert!(state.is_pen_pressed());
    assert!(!state.handle_pen_pressed());
    assert!(!state.handle_pen_released());
    assert!(!state.is_pen_pressed());
    assert!(state.handle_pen_released());
}

#[test]
fn press_of_a_button() {
    assert_eq!(Press::from_button(MouseButton::Middle), Press::Mouse(MouseButton::Middle));
    assert_ne!(Press::from_button(MouseButton::Left), Press::Pen);
}

#[test]
fn left_drag_draws() {
    let mut pointer = PenInput::new();
    assert_eq!(pointer.handle_mouse_moved(p(1, 1)), None);
    assert_eq!(pointer.handle_mouse_button(true, MouseButton::Left), Some(StrokeInput::StrokeStart));
    assert_eq!(pointer.handle_mouse_button(true, MouseButton::Left), None);
    assert_eq!(pointer.handle_mouse_button(true, MouseButton::Right), None);
    assert_eq!(pointer.handle_mouse_button(false, MouseButton::Right), None);
    assert_eq!(
        pointer.handle_mouse_moved(p(3, 4)),
        Some(StrokeInput::StrokeMove(p(3, 4), 65536))
    );
    assert_eq!(pointer.handle_mouse_button(false, MouseButton::Left), Some(StrokeInput::StrokeEnd));
    assert_eq!(pointer.handle_mouse_moved(p(5, 6)), None);
    assert_eq!(pointer, PenInput::new());
}

#[test]
fn other_buttons_do_not_draw() {
    let mut pointer = PenInput::new();
    assert_eq!(pointer.handle_mouse_button(true, MouseButton::Middle), None);
    assert_eq!(pointer.handle_mouse_moved(p(3, 4)), None);
    assert_eq!(pointer.handle_mouse_button(true, MouseButton::Left), None);
    assert_eq!(pointer.handle_mouse_button(false, MouseButton::Left), None);
    assert_eq!(pointer.handle_mouse_button(false, MouseButton::Middle), None);
    assert_eq!(pointer.handle_mouse_button(false, MouseButton::Left), None);
}

#[test]
fn tablet_draws_at_the_latest_pressure() {
    let mut pointer = PenInput::new();
    assert_eq!(pointer.handle_tablet(TabletEvent::Motion(p(1, 1))), None);
    assert_eq!(pointer.handle_tablet(TabletEvent::Pressure(30000)), None);
    assert_eq!(pointer.handle_tablet(TabletEvent::Down), Some(StrokeInput::StrokeStart));
    assert_eq!(
        pointer.handle_tablet(TabletEvent::Motion(p(2, 2))),
        Some(StrokeInput::StrokeMove(p(2, 2), 30000))
    );
    assert_eq!(pointer.handle_tablet(TabletEvent::Pressure(-3)), None);
    assert_eq!(
        pointer.handle_tablet(TabletEvent::Motion(p(3, 3))),
        Some(StrokeInput::StrokeMove(p(3, 3), -3))
    );
    assert_eq!(pointer.handle_tablet(TabletEvent::Up), Some(StrokeInput::StrokeEnd));
    assert_eq!(pointer.handle_tablet(TabletEvent::Motion(p(4, 4))), None);
    assert_eq!(pointer.current_pressure, -3);
}

#[test]
fn sampler_records_in_order() {
    let mut stroke = StrokeInProgress::new();
    assert_eq!(stroke.len(), 0);
    stroke.move_to(p(1, 2), 100);
    stroke.move_to(p(1, 2), 70000);
    stroke.move_to(p(-4, 9), -1);
    assert_eq!(stroke.len(), 3);
    assert_eq!(stroke.events().len(), 3);
    assert_eq!(stroke.events()[1], ev(1, 2, PRESSURE_ONE));
    assert_eq!(stroke.finish(), vec![ev(1, 2, 100), ev(1, 2, PRESSURE_ONE), ev(-4, 9, 0)]);
}

#[test]
fn empty_sampler_finishes_empty() {
    assert_eq!(StrokeInProgress::new().finish(), vec![]);
}

#[test]
fn mean_and_full_width() {
    assert_eq!(mean_pressure(0, 0), 0);
    assert_eq!(mean_pressure(3, 4), 3);
    assert_eq!(mean_pressure(u32::MAX, u32::MAX), u32::MAX);
    assert_eq!(full_width(8, PRESSURE_ONE), 8);
    assert_eq!(full_width(8, PRESSURE_ONE / 2), 4);
    assert_eq!(full_width(9, PRESSURE_ONE / 2), 4);
    assert_eq!(full_width(u32::MAX, u32::MAX), 281474976579584);
}

#[test]
fn chain_has_one_segment_per_pair() {
    let events = vec![ev(0, 0, PRESSURE_ONE), ev(10, 0, PRESSURE_ONE / 2), ev(10, 10, 0)];
    assert_eq!(
        stroke_segments(&events, 8, &FlatCurve),
        vec![
            StrokeSegment { from: p(0, 0), to: p(10, 0), width: 6 },
            StrokeSegment { from: p(10, 0), to: p(10, 10), width: 2 },
        ]
    );
    assert_eq!(stroke_segments(&vec![], 8, &FlatCurve), vec![]);
    assert_eq!(stroke_segments(&vec![ev(1, 1, 5)], 8, &FlatCurve), vec![]);
}

#[test]
fn growing_chain_equals_full_rebuild() {
    let mut active = ActiveStroke::new(8);
    let mut events: Vec<PenEvent> = Vec::new();
    assert_eq!(active.get_fragment(), &vec![]);
    for i in 0..30i32 {
        let e = ev(i * 3, (i * i) % 7, (i as u32 * 2999) % (PRESSURE_ONE + 1));
        active.push_event(e);
        events.push(e);
        assert_eq!(active.get_fragment(), &stroke_segments(&events, 8, &FlatCurve));
    }
    assert_eq!(active.events(), &events);
    assert_eq!(active.get_fragment().len(), 29);
}
