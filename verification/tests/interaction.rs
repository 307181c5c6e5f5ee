use cardinal::interaction::{forwarded, ActionState, Forward, InteractionEvent, WidgetInput, WidgetKind};

fn act(started: bool, stopped: bool, acting: bool, hovering: bool) -> ActionState {
    ActionState { actor_started: started, actor_stopped: stopped, actor_acting: acting, hovering }
}

#[test]
fn widget_kinds() {
    let i = WidgetKind::InputPort { port_id: 3 };
    let o = WidgetKind::OutputPort { port_id: 4 };
    let p = WidgetKind::Param { param_id: 5 };
    assert!(i.is_port() && o.is_port() && !p.is_port());
    assert_eq!(i.port_id(), Some(3));
    assert_eq!(o.port_id(), Some(4));
    assert_eq!(p.port_id(), None);
    assert!(!i.is_output() && o.is_output() && !p.is_output());
}

#[test]
fn no_input_means_no_event() {
    let mut w = WidgetInput::new();
    assert_eq!(w.step(false, act(true, false, false, true)), InteractionEvent::Idle);
    assert_eq!(w, WidgetInput::new());
}

#[test]
fn pinch_lifecycle() {
    let mut w = WidgetInput::new();
    assert_eq!(w.step(true, act(false, false, false, true)), InteractionEvent::HoverEntered);
    assert!(w.hovered);
    assert_eq!(w.step(true, act(true, false, true, true)), InteractionEvent::PinchStarted);
    assert!(w.pinching);
    assert_eq!(w.step(true, act(false, false, true, false)), InteractionEvent::PinchHeld);
    assert!(w.pinching && w.hovered);
    assert_eq!(w.step(true, act(false, true, false, false)), InteractionEvent::PinchStopped);
    assert!(!w.pinching);
    assert_eq!(w.step(true, act(false, false, false, false)), InteractionEvent::HoverExited);
    assert_eq!(w.step(true, act(false, false, false, false)), InteractionEvent::Idle);
}

#[test]
fn start_wins_over_stop() {
    let mut w = WidgetInput::new();
    assert_eq!(w.step(true, act(true, true, false, false)), InteractionEvent::PinchStarted);
    assert!(w.pinching);
}

#[test]
fn pinches_become_button_and_hover_events() {
    assert_eq!(forwarded(InteractionEvent::PinchStarted), Forward::Button { action: 1 });
    assert_eq!(forwarded(InteractionEvent::PinchHeld), Forward::Hover);
    assert_eq!(forwarded(InteractionEvent::PinchStopped), Forward::Button { action: 0 });
    assert_eq!(forwarded(InteractionEvent::HoverEntered), Forward::Nothing);
    assert_eq!(forwarded(InteractionEvent::HoverExited), Forward::Nothing);
    assert_eq!(forwarded(InteractionEvent::Idle), Forward::Nothing);
}
