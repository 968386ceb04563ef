use vstd::prelude::*;

verus! {

/// Handle of a registered input event.
#[derive(Copy, Clone, PartialEq, Eq, Hash, Debug, Structural)]
pub struct EventKey {
    pub id: u32,
}

/// Mouse position that comes with an input event.
#[derive(Copy, Clone, PartialEq, Eq, Hash, Debug, Structural)]
pub struct ControlMetadata {
    pub mouse_x: i32,
    pub mouse_y: i32,
}

/// Mouse position that comes with an input event.
#[derive(Copy, Clone, PartialEq, Eq, Hash, Debug, Structural)]
pub struct EventMetadata {
    pub mouse_x: i32,
    pub mouse_y: i32,
}

/// Dispatcher of input events; it keeps no state.
#[derive(Copy, Clone, PartialEq, Eq, Hash, Debug, Structural)]
pub struct InputHandler {}

/// What an input event keeps track of.
#[derive(Copy, Clone, PartialEq, Eq, Hash, Debug, Structural)]
pub enum EventType {
    /// Flips on every press.
    Toggle { state: bool },
    /// Counts presses until the frame is finished.
    Request { requests: u32 },
    /// Held while pressed.
    Persistent { pressed: bool },
}

impl EventType {
    pub fn new_toggle(default: bool) -> (r: EventType)
        ensures
            r == (EventType::Toggle { state: default }),
    {
        EventType::Toggle { state: default }
    }

    pub fn new_request() -> (r: EventType)
        ensures
            r == (EventType::Request { requests: 0 }),
    {
        EventType::Request { requests: 0 }
    }

    pub fn new_persistent() -> (r: EventType)
        ensures
            r == (EventType::Persistent { pressed: false }),
    {
        EventType::Persistent { pressed: false }
    }

    /// A press of the bound key.
    pub fn press(&mut self)
        requires
            match *old(self) {
                EventType::Request { requests } => requests < u32::MAX,
                _ => true,
            },
        ensures
            *final(self) == match *old(self) {
                EventType::Toggle { state } => EventType::Toggle { state: !state },
                EventType::Request { requests } => EventType::Request {
                    requests: (requests + 1) as u32,
                },
                EventType::Persistent { .. } => EventType::Persistent { pressed: true },
            },
    {
        match self {
            EventType::Toggle { state } => {
                *state = !*state;
            },
            EventType::Request { requests } => {
                *requests = *requests + 1;
            },
            EventType::Persistent { pressed } => {
                *pressed = true;
            },
        }
    }

    /// A release of the bound key: only a held event changes.
    pub fn release(&mut self)
        ensures
            *final(self) == match *old(self) {
                EventType::Persistent { .. } => EventType::Persistent { pressed: false },
                other => other,
            },
    {
        match self {
            EventType::Persistent { pressed } => {
                *pressed = false;
            },
            _ => {},
        }
    }

    /// End of a frame: counted requests are consumed.
    pub fn finish(&mut self)
        ensures
            *final(self) == match *old(self) {
                EventType::Request { .. } => EventType::Request { requests: 0 },
                other => other,
            },
    {
        match self {
            EventType::Request { requests } => {
                *requests = 0;
            },
            _ => {},
        }
    }
}

} // verus!
