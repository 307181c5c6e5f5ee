//! Widget kinds of a module panel and the pinch/hover decisions taken for
//! each widget's interaction box every frame.

use vstd::prelude::*;

verus! {

/// What a widget on a module panel is.
#[derive(Debug, Clone, Copy, PartialEq, Eq, Structural)]
pub enum WidgetKind {
    InputPort { port_id: i32 },
    OutputPort { port_id: i32 },
    Param { param_id: i32 },
}

impl WidgetKind {
    /// The widget is a port, input or output.
    pub fn is_port(self) -> (b: bool)
        ensures
            b == (self is InputPort || self is OutputPort),
    {
        match self {
            WidgetKind::InputPort { .. } => true,
            WidgetKind::OutputPort { .. } => true,
            WidgetKind::Param { .. } => false,
        }
    }

    /// The port id of a port widget; none for a parameter.
    pub fn port_id(self) -> (id: Option<i32>)
        ensures
            id == match self {
                WidgetKind::InputPort { port_id } => Some(port_id),
                WidgetKind::OutputPort { port_id } => Some(port_id),
                WidgetKind::Param { .. } => None::<i32>,
            },
    {
        match self {
            WidgetKind::InputPort { port_id } => Some(port_id),
            WidgetKind::OutputPort { port_id } => Some(port_id),
            WidgetKind::Param { .. } => None,
        }
    }

    /// The widget is an output port.
    pub fn is_output(self) -> (b: bool)
        ensures
            b == (self is OutputPort),
    {
        match self {
            WidgetKind::OutputPort { .. } => true,
            _ => false,
        }
    }
}

/// What happened on an interaction box this frame.
#[derive(Debug, Clone, Copy, PartialEq, Eq, Structural)]
pub enum InteractionEvent {
    Idle,
    HoverEntered,
    HoverExited,
    PinchStarted,
    PinchHeld,
    PinchStopped,
}

/// The state of the pinch action of an interaction box after this frame's
/// input was applied to it.
#[derive(Debug, Clone, Copy, PartialEq, Eq, Structural)]
pub struct ActionState {
    /// A pinch began this frame.
    pub actor_started: bool,
    /// A pinch ended this frame.
    pub actor_stopped: bool,
    /// A pinch is under way.
    pub actor_acting: bool,
    /// Some input is hovering the box.
    pub hovering: bool,
}

/// Whether an interaction box is hovered and whether a pinch is active on it.
#[derive(Debug, Clone, Copy, PartialEq, Eq, Structural)]
pub struct WidgetInput {
    pub hovered: bool,
    pub pinching: bool,
}

impl WidgetInput {
    /// A box that is neither hovered nor pinched.
    pub fn new() -> (w: Self)
        ensures
            !w.hovered && !w.pinching,
    {
        WidgetInput { hovered: false, pinching: false }
    }

    /// Take this frame's decision. Without new input nothing happens; a pinch
    /// that starts or stops is reported first, then a pinch still held;
    /// otherwise the hover state is updated and a change of it reported.
    pub fn step(&mut self, had_input: bool, action: ActionState) -> (event: InteractionEvent)
        ensures
            if !had_input {
                event == InteractionEvent::Idle && *final(self) == *old(self)
            } else if action.actor_started {
                &&& event == InteractionEvent::PinchStarted
                &&& final(self).pinching
                &&& final(self).hovered == old(self).hovered
            } else if action.actor_stopped {
                &&& event == InteractionEvent::PinchStopped
                &&& !final(self).pinching
                &&& final(self).hovered == old(self).hovered
            } else if action.actor_acting {
                event == InteractionEvent::PinchHeld && *final(self) == *old(self)
            } else {
                &&& final(self).hovered == action.hovering
                &&& final(self).pinching == old(self).pinching
                &&& event == if action.hovering && !old(self).hovered {
                    InteractionEvent::HoverEntered
                } else if !action.hovering && old(self).hovered {
                    InteractionEvent::HoverExited
                } else {
                    InteractionEvent::Idle
                }
            },
    {
        if !had_input {
            return InteractionEvent::Idle;
        }
        if action.actor_started {
            self.pinching = true;
            InteractionEvent::PinchStarted
        } else if action.actor_stopped {
            self.pinching = false;
            InteractionEvent::PinchStopped
        } else if action.actor_acting {
            InteractionEvent::PinchHeld
        } else {
            let was_hovered = self.hovered;
            self.hovered = action.hovering;
            if self.hovered && !was_hovered {
                InteractionEvent::HoverEntered
            } else if !self.hovered && was_hovered {
                InteractionEvent::HoverExited
            } else {
                InteractionEvent::Idle
            }
        }
    }
}

/// A hover report changes the hover state, and only a hover report does
/// when no pinch starts or stops.
pub proof fn lemma_hover_reports_track_state(
    before: WidgetInput,
    after: WidgetInput,
    action: ActionState,
    event: InteractionEvent,
)
    requires
        !action.actor_started,
        !action.actor_stopped,
        !action.actor_acting,
        after.hovered == action.hovering,
        after.pinching == before.pinching,
        event == if action.hovering && !before.hovered {
            InteractionEvent::HoverEntered
        } else if !action.hovering && before.hovered {
            InteractionEvent::HoverExited
        } else {
            InteractionEvent::Idle
        },
    ensures
        (event == InteractionEvent::HoverEntered) <==> (!before.hovered && after.hovered),
        (event == InteractionEvent::HoverExited) <==> (before.hovered && !after.hovered),
        (event == InteractionEvent::Idle) <==> (before.hovered == after.hovered),
{
}

/// What is forwarded to the engine for an interaction event.
#[derive(Debug, Clone, Copy, PartialEq, Eq, Structural)]
pub enum Forward {
    /// A mouse-button event with the given action (1 press, 0 release).
    Button { action: i32 },
    /// A hover (drag) event.
    Hover,
    /// Nothing.
    Nothing,
}

/// The engine event a widget interaction becomes: a pinch presses and
/// releases the button, a held pinch drags (hover events); hovering alone
/// sends nothing.
pub fn forwarded(event: InteractionEvent) -> (f: Forward)
    ensures
        f == match event {
            InteractionEvent::PinchStarted => Forward::Button { action: 1 },
            InteractionEvent::PinchHeld => Forward::Hover,
            InteractionEvent::PinchStopped => Forward::Button { action: 0 },
            _ => Forward::Nothing,
        },
{
    match event {
        InteractionEvent::PinchStarted => Forward::Button { action: 1 },
        InteractionEvent::PinchHeld => Forward::Hover,
        InteractionEvent::PinchStopped => Forward::Button { action: 0 },
        _ => Forward::Nothing,
    }
}

} // verus!
