//! The view state and how input events and frame ticks change it.
use vstd::prelude::*;
use crate::view::{View, MAX_ZOOM, MIN_ZOOM, UNIT};

verus! {

/// Pan applied per frame while a direction key is held (`0.0001`).
pub const PAN_STEP: i64 = 100;

/// The keys the view reacts to; every other key is `Other`.
#[derive(Clone, Copy, Debug, PartialEq, Eq)]
pub enum Key {
    W,
    A,
    S,
    D,
    Escape,
    Other,
}

/// One discrete input event.
#[derive(Clone, Copy, Debug, PartialEq, Eq)]
pub enum InputEvent {
    Quit,
    KeyDown(Key),
    KeyUp(Key),
    /// A turn of the mouse wheel with the given vertical delta.
    Wheel(i32),
    Other,
}

/// Whether the render loop goes on after an event.
#[derive(Clone, Copy, Debug, PartialEq, Eq)]
pub enum Flow {
    Continue,
    Stop,
}

/// The camera and the pan applied to it on each frame.
#[derive(Clone, Copy, Debug, PartialEq, Eq)]
pub struct ViewState {
    pub view: View,
    pub movement: (i64, i64),
}

/// `z` clamped into `[MIN_ZOOM, MAX_ZOOM]`.
pub open spec fn clamp_zoom(z: int) -> int {
    if z < MIN_ZOOM {
        MIN_ZOOM as int
    } else if z > MAX_ZOOM {
        MAX_ZOOM as int
    } else {
        z
    }
}

/// Zoom after a wheel turn up: multiplied by `1.2`, then clamped.
pub open spec fn zoom_up(z: int) -> int {
    clamp_zoom(z * 6 / 5)
}

/// Zoom after a wheel turn down: divided by `1.2`, then clamped.
pub open spec fn zoom_down(z: int) -> int {
    clamp_zoom(z * 5 / 6)
}

/// The state after `event`; the last key event on an axis sets its pan.
pub open spec fn after_event(s: ViewState, event: InputEvent) -> ViewState {
    match event {
        InputEvent::KeyDown(Key::W) => ViewState { movement: (s.movement.0, PAN_STEP), ..s },
        InputEvent::KeyDown(Key::A) => ViewState { movement: (PAN_STEP, s.movement.1), ..s },
        InputEvent::KeyDown(Key::S) => ViewState { movement: (s.movement.0, (-PAN_STEP) as i64), ..s },
        InputEvent::KeyDown(Key::D) => ViewState { movement: ((-PAN_STEP) as i64, s.movement.1), ..s },
        InputEvent::KeyUp(Key::W) => ViewState { movement: (s.movement.0, 0), ..s },
        InputEvent::KeyUp(Key::A) => ViewState { movement: (0, s.movement.1), ..s },
        InputEvent::KeyUp(Key::S) => ViewState { movement: (s.movement.0, 0), ..s },
        InputEvent::KeyUp(Key::D) => ViewState { movement: (0, s.movement.1), ..s },
        InputEvent::Wheel(dy) => ViewState {
            view: View {
                zoom: (if dy > 0 { zoom_up(s.view.zoom as int) } else { zoom_down(s.view.zoom as int) }) as i64,
                ..s.view
            },
            ..s
        },
        _ => s,
    }
}

/// Quit and Escape end the loop; every other event lets it go on.
pub open spec fn flow_after(event: InputEvent) -> Flow {
    match event {
        InputEvent::Quit => Flow::Stop,
        InputEvent::KeyDown(Key::Escape) => Flow::Stop,
        _ => Flow::Continue,
    }
}

/// `a + d`, held within the range of `i64`.
pub open spec fn saturating_sum(a: int, d: int) -> int {
    if a + d < i64::MIN {
        i64::MIN as int
    } else if a + d > i64::MAX {
        i64::MAX as int
    } else {
        a + d
    }
}

fn pan(a: i64, d: i64) -> (r: i64)
    ensures
        r == saturating_sum(a as int, d as int),
{
    let s: i128 = a as i128 + d as i128;
    if s < i64::MIN as i128 {
        i64::MIN
    } else if s > i64::MAX as i128 {
        i64::MAX
    } else {
        s as i64
    }
}

impl ViewState {
    /// The view is well formed and each pan component is at most one step.
    pub open spec fn wf(&self) -> bool {
        &&& self.view.wf()
        &&& -PAN_STEP <= self.movement.0 <= PAN_STEP
        &&& -PAN_STEP <= self.movement.1 <= PAN_STEP
    }

    /// The initial state: centered on the origin, zoom `1.0`, not moving.
    pub fn new() -> (r: ViewState)
        ensures
            r.view == (View { x: 0, y: 0, zoom: UNIT }),
            r.movement == (0i64, 0i64),
            r.wf(),
    {
        ViewState { view: View::from(0, 0, UNIT), movement: (0, 0) }
    }

    /// Applies one input event and says whether the loop goes on.
    pub fn handle_event(&mut self, event: InputEvent) -> (flow: Flow)
        requires
            old(self).wf(),
        ensures
            *final(self) == after_event(*old(self), event),
            final(self).wf(),
            flow == flow_after(event),
    {
        match event {
            InputEvent::Quit => Flow::Stop,
            InputEvent::KeyDown(key) => {
                match key {
                    Key::W => self.movement.1 = PAN_STEP,
                    Key::A => self.movement.0 = PAN_STEP,
                    Key::S => self.movement.1 = -PAN_STEP,
                    Key::D => self.movement.0 = -PAN_STEP,
                    Key::Escape => return Flow::Stop,
                    Key::Other => {},
                }
                Flow::Continue
            },
            InputEvent::KeyUp(key) => {
                match key {
                    Key::W => self.movement.1 = 0,
                    Key::A => self.movement.0 = 0,
                    Key::S => self.movement.1 = 0,
                    Key::D => self.movement.0 = 0,
                    _ => {},
                }
                Flow::Continue
            },
            InputEvent::Wheel(dy) => {
                let z = self.view.zoom;
                let scaled: i64 = if dy > 0 { z * 6 / 5 } else { z * 5 / 6 };
                self.view.zoom = if scaled < MIN_ZOOM {
                    MIN_ZOOM
                } else if scaled > MAX_ZOOM {
                    MAX_ZOOM
                } else {
                    scaled
                };
                Flow::Continue
            },
            InputEvent::Other => Flow::Continue,
        }
    }

    /// Advances one frame: the view moves by the current pan.
    pub fn tick(&mut self)
        requires
            old(self).wf(),
        ensures
            final(self).wf(),
            final(self).movement == old(self).movement,
            final(self).view.zoom == old(self).view.zoom,
            final(self).view.x == saturating_sum(old(self).view.x as int, old(self).movement.0 as int),
            final(self).view.y == saturating_sum(old(self).view.y as int, old(self).movement.1 as int),
    {
        self.view.x = pan(self.view.x, self.movement.0);
        self.view.y = pan(self.view.y, self.movement.1);
    }
}

/// Zoom after `n` wheel turns up, starting from `z`.
pub open spec fn zoom_up_times(z: int, n: nat) -> int
    decreases n,
{
    if n == 0 {
        z
    } else {
        zoom_up(zoom_up_times(z, (n - 1) as nat))
    }
}

/// Zoom after `n` wheel turns down, starting from `z`.
pub open spec fn zoom_down_times(z: int, n: nat) -> int
    decreases n,
{
    if n == 0 {
        z
    } else {
        zoom_down(zoom_down_times(z, (n - 1) as nat))
    }
}

/// However many times the wheel turns up, the zoom never passes `MAX_ZOOM`;
/// however many times it turns down, it never falls below `MIN_ZOOM`.
pub proof fn lemma_zoom_stays_clamped(z: int, n: nat)
    requires
        MIN_ZOOM <= z <= MAX_ZOOM,
    ensures
        MIN_ZOOM <= zoom_up_times(z, n) <= MAX_ZOOM,
        MIN_ZOOM <= zoom_down_times(z, n) <= MAX_ZOOM,
    decreases n,
{
    if n > 0 {
        lemma_zoom_stays_clamped(z, (n - 1) as nat);
    }
}

} // verus!
