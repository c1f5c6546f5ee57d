//! The decisions of the interactive loop.
//!
//! Input is gathered between redraws: dragging with the primary button adds
//! up to one displacement in pixels, turning the wheel adds up to one signed
//! count, and a request to quit is remembered. On each tick the controller
//! decides what the loop does next. It asks for a new generation only when
//! the pool is not busy, hands over everything gathered so far in one piece,
//! and keeps whatever arrives while a generation is under way for the tick
//! after it.

use vstd::prelude::*;

verus! {

/// What the window reports, reduced to what the controller reads.
#[derive(Copy, Clone, Debug, PartialEq, Eq, Structural)]
pub enum InputEvent {
    /// The window was asked to close.
    Quit,
    /// The pointer moved by `(xrel, yrel)` pixels; `left` says whether the
    /// primary button was held.
    MouseMotion { left: bool, xrel: i32, yrel: i32 },
    /// The wheel turned by `y`; `normal` says whether the device reports the
    /// turn in the usual direction.
    MouseWheel { y: i32, normal: bool },
    /// Anything else.
    Other,
}

/// Input gathered and not yet applied.
pub struct Pending {
    /// Displacement dragged, right and down, in pixels.
    pub drag: Option<(int, int)>,
    /// Wheel turns, added up.
    pub wheel: Option<int>,
    /// Whether the window was asked to close.
    pub quit: bool,
}

/// Whether `v` is a value of `i32`.
pub open spec fn in_i32(v: int) -> bool {
    i32::MIN <= v <= i32::MAX
}

/// Whether what was gathered can be held in machine integers.
pub open spec fn pending_fits(p: Pending) -> bool {
    &&& p.drag matches Some(d) ==> in_i32(d.0) && in_i32(d.1)
    &&& p.wheel matches Some(w) ==> in_i32(w)
}

/// Nothing gathered.
pub open spec fn nothing_pending() -> Pending {
    Pending { drag: None, wheel: None, quit: false }
}

/// What is gathered after one more event. A drag counts while the primary
/// button is held and the pointer did move; a wheel turn counts when it is
/// reported in the usual direction.
pub open spec fn after_event(p: Pending, event: InputEvent) -> Pending {
    match event {
        InputEvent::Quit => Pending { quit: true, ..p },
        InputEvent::MouseMotion { left, xrel, yrel } => {
            if left && (xrel != 0 || yrel != 0) {
                let so_far = if p.drag is Some {
                    p.drag->0
                } else {
                    (0int, 0int)
                };
                Pending { drag: Some((so_far.0 + xrel, so_far.1 + yrel)), ..p }
            } else {
                p
            }
        },
        InputEvent::MouseWheel { y, normal } => {
            if normal {
                let so_far = if p.wheel is Some {
                    p.wheel->0
                } else {
                    0int
                };
                Pending { wheel: Some(so_far + y), ..p }
            } else {
                p
            }
        },
        InputEvent::Other => p,
    }
}

/// What is gathered after a run of events, first to last.
pub open spec fn after_events(p: Pending, events: Seq<InputEvent>) -> Pending
    decreases events.len(),
{
    if events.len() == 0 {
        p
    } else {
        after_event(after_events(p, events.drop_last()), events.last())
    }
}

/// Whether the sums stay within machine integers all the way through a run
/// of events.
pub open spec fn events_fit(p: Pending, events: Seq<InputEvent>) -> bool {
    forall|k: int| 0 <= k <= events.len() ==> pending_fits(#[trigger] after_events(p, events.take(k)))
}

/// Gathers input between two redraws.
pub struct EventsHandler {
    mouse_move: Option<(i32, i32)>,
    wheel_move_y: Option<i32>,
    quit: bool,
}

impl View for EventsHandler {
    type V = Pending;

    /// What was gathered and not yet applied.
    closed spec fn view(&self) -> Pending {
        Pending {
            drag: match self.mouse_move {
                Some(mv) => Some((mv.0 as int, mv.1 as int)),
                None => None,
            },
            wheel: match self.wheel_move_y {
                Some(y) => Some(y as int),
                None => None,
            },
            quit: self.quit,
        }
    }
}

impl EventsHandler {
    /// A handler that has gathered nothing.
    pub fn new() -> (ret: EventsHandler)
        ensures
            ret@ == nothing_pending(),
    {
        EventsHandler { mouse_move: None, wheel_move_y: None, quit: false }
    }

    /// What a handler holds always fits machine integers.
    pub proof fn lemma_fits(&self)
        ensures
            pending_fits(self@),
    {
    }

    /// Whether `event` can be taken in without a sum leaving the machine
    /// integers.
    pub fn can_handle(&self, event: InputEvent) -> (ret: bool)
        ensures
            ret == pending_fits(after_event(self@, event)),
    {
        match event {
            InputEvent::MouseMotion { left, xrel, yrel } => {
                if left && (xrel != 0 || yrel != 0) {
                    let so_far: (i32, i32) = match self.mouse_move {
                        Some(mv) => mv,
                        None => (0, 0),
                    };
                    so_far.0.checked_add(xrel).is_some() && so_far.1.checked_add(yrel).is_some()
                } else {
                    true
                }
            },
            InputEvent::MouseWheel { y, normal } => {
                if normal {
                    let so_far: i32 = match self.wheel_move_y {
                        Some(w) => w,
                        None => 0,
                    };
                    so_far.checked_add(y).is_some()
                } else {
                    true
                }
            },
            _ => true,
        }
    }

    /// Takes in one event.
    pub fn handle_event(&mut self, event: InputEvent)
        requires
            pending_fits(after_event(old(self)@, event)),
        ensures
            final(self)@ == after_event(old(self)@, event),
    {
        match event {
            InputEvent::Quit => {
                self.quit = true;
            },
            InputEvent::MouseMotion { left, xrel, yrel } => {
                if left && (xrel != 0 || yrel != 0) {
                    let tmp: (i32, i32) = match self.mouse_move {
                        Some(mv) => mv,
                        None => (0, 0),
                    };
                    self.mouse_move = Some((tmp.0 + xrel, tmp.1 + yrel));
                }
            },
            InputEvent::MouseWheel { y, normal } => {
                if normal {
                    let tmp: i32 = match self.wheel_move_y {
                        Some(w) => w,
                        None => 0,
                    };
                    self.wheel_move_y = Some(tmp + y);
                }
            },
            InputEvent::Other => {},
        }
    }

    /// Takes in a run of events, first to last.
    pub fn handle(&mut self, events: &Vec<InputEvent>)
        requires
            events_fit(old(self)@, events@),
        ensures
            final(self)@ == after_events(old(self)@, events@),
    {
        let mut i: usize = 0;
        assert(events@.take(0) =~= Seq::<InputEvent>::empty());
        while i < events.len()
            invariant
                0 <= i <= events@.len(),
                events_fit(old(self)@, events@),
                self@ == after_events(old(self)@, events@.take(i as int)),
            decreases events@.len() - i,
        {
            proof {
                let longer = events@.take(i as int + 1);
                assert(longer.drop_last() =~= events@.take(i as int));
                assert(longer.last() == events@[i as int]);
                assert(pending_fits(after_events(old(self)@, longer)));
            }
            self.handle_event(events[i]);
            i = i + 1;
        }
        assert(events@.take(events@.len() as int) =~= events@);
    }

    /// Whether the window was asked to close.
    pub fn quit(&self) -> (ret: bool)
        ensures
            ret == self@.quit,
    {
        self.quit
    }

    /// Whether a drag or a wheel turn waits to be applied.
    pub fn has_pending(&self) -> (ret: bool)
        ensures
            ret == (self@.drag is Some || self@.wheel is Some),
    {
        self.mouse_move.is_some() || self.wheel_move_y.is_some()
    }

    /// Hands out the displacement dragged so far, in pixels, and forgets it.
    pub fn range_move(&mut self) -> (ret: Option<(i32, i32)>)
        ensures
            ret is Some <==> old(self)@.drag is Some,
            ret matches Some(mv) ==> old(self)@.drag == Some((mv.0 as int, mv.1 as int)),
            final(self)@ == (Pending { drag: None, ..old(self)@ }),
    {
        let mv: Option<(i32, i32)> = self.mouse_move;
        self.mouse_move = None;
        mv
    }

    /// Hands out the wheel turns added up so far and forgets them.
    pub fn range_shrink(&mut self) -> (ret: Option<i32>)
        ensures
            ret is Some <==> old(self)@.wheel is Some,
            ret matches Some(y) ==> old(self)@.wheel == Some(y as int),
            final(self)@ == (Pending { wheel: None, ..old(self)@ }),
    {
        let res_move_y: Option<i32> = self.wheel_move_y;
        self.wheel_move_y = None;
        res_move_y
    }
}

/// Where the loop stands between two generations.
#[derive(Copy, Clone, Debug, PartialEq, Eq, Structural)]
pub enum ControllerState {
    /// No generation is under way.
    Idle,
    /// A generation was asked for and the pool has not been seen idle since.
    Generating,
}

/// What the loop does after a tick. Whatever it is, the loop then shows the
/// tiles that have arrived.
#[derive(Copy, Clone, Debug, PartialEq, Eq)]
pub enum Action {
    /// Leave the loop and shut the pool down.
    Quit,
    /// Move the view by `pan` pixels and zoom it by `zoom` turns, as far as
    /// each is given, then cut the frame into tiles and submit them.
    Generate { pan: Option<(i32, i32)>, zoom: Option<i32> },
    /// Nothing to submit.
    Wait,
}

/// The controller as contracts see it.
pub struct ControllerView {
    /// Whether a generation is under way.
    pub generating: bool,
    /// Whether the first generation is still to be asked for.
    pub first_due: bool,
    /// Input gathered and not yet applied.
    pub pending: Pending,
}

/// Whether a tick asks for a new generation: never when the window was asked
/// to close, never while the pool is busy, and otherwise when the first
/// generation is due or input waits to be applied.
pub open spec fn tick_generates(c: ControllerView, pool_busy: bool) -> bool {
    &&& !c.pending.quit
    &&& !pool_busy
    &&& (c.first_due || c.pending.drag is Some || c.pending.wheel is Some)
}

/// The controller after a tick.
pub open spec fn after_tick(c: ControllerView, pool_busy: bool) -> ControllerView {
    if c.pending.quit {
        c
    } else if tick_generates(c, pool_busy) {
        ControllerView {
            generating: true,
            first_due: false,
            pending: Pending { drag: None, wheel: None, quit: false },
        }
    } else {
        ControllerView { generating: c.generating && pool_busy, ..c }
    }
}

/// The interactive loop's controller.
pub struct Controller {
    state: ControllerState,
    first_due: bool,
    events: EventsHandler,
}

impl View for Controller {
    type V = ControllerView;

    closed spec fn view(&self) -> ControllerView {
        ControllerView {
            generating: self.state is Generating,
            first_due: self.first_due,
            pending: self.events@,
        }
    }
}

impl Controller {
    /// A controller at rest, with the first generation due and nothing
    /// gathered.
    pub fn new() -> (ret: Controller)
        ensures
            ret@ == (ControllerView {
                generating: false,
                first_due: true,
                pending: nothing_pending(),
            }),
    {
        Controller { state: ControllerState::Idle, first_due: true, events: EventsHandler::new() }
    }

    /// Where the loop stands.
    pub fn state(&self) -> (ret: ControllerState)
        ensures
            ret is Generating <==> self@.generating,
    {
        self.state
    }

    /// Whether `event` can be taken in without a sum leaving the machine
    /// integers.
    pub fn can_handle(&self, event: InputEvent) -> (ret: bool)
        ensures
            ret == pending_fits(after_event(self@.pending, event)),
    {
        self.events.can_handle(event)
    }

    /// Takes in one event, whatever the state: input that arrives during a
    /// generation is kept.
    pub fn handle_event(&mut self, event: InputEvent)
        requires
            pending_fits(after_event(old(self)@.pending, event)),
        ensures
            final(self)@ == (ControllerView {
                pending: after_event(old(self)@.pending, event),
                ..old(self)@
            }),
    {
        self.events.handle_event(event);
    }

    /// Takes in a run of events, first to last.
    pub fn handle(&mut self, events: &Vec<InputEvent>)
        requires
            events_fit(old(self)@.pending, events@),
        ensures
            final(self)@ == (ControllerView {
                pending: after_events(old(self)@.pending, events@),
                ..old(self)@
            }),
    {
        self.events.handle(events);
    }

    /// Decides what the loop does next, given whether the pool is busy.
    ///
    /// A request to quit wins. Else a generation is asked for when the pool
    /// is not busy and there is something to show: the first frame, or input
    /// gathered since the last generation, which is handed over whole and
    /// forgotten. Else the loop waits, and nothing gathered is lost.
    pub fn tick(&mut self, pool_busy: bool) -> (ret: Action)
        ensures
            final(self)@ == after_tick(old(self)@, pool_busy),
            ret is Quit <==> old(self)@.pending.quit,
            ret is Generate <==> tick_generates(old(self)@, pool_busy),
            ret is Generate ==> !pool_busy,
            ret matches Action::Generate { pan, zoom } ==> {
                &&& pan is Some <==> old(self)@.pending.drag is Some
                &&& pan matches Some(mv) ==> old(self)@.pending.drag == Some(
                    (mv.0 as int, mv.1 as int),
                )
                &&& zoom is Some <==> old(self)@.pending.wheel is Some
                &&& zoom matches Some(y) ==> old(self)@.pending.wheel == Some(y as int)
            },
    {
        if self.events.quit() {
            return Action::Quit;
        }
        if !pool_busy {
            self.state = ControllerState::Idle;
        }
        if !pool_busy && (self.first_due || self.events.has_pending()) {
            let pan: Option<(i32, i32)> = self.events.range_move();
            let zoom: Option<i32> = self.events.range_shrink();
            self.first_due = false;
            self.state = ControllerState::Generating;
            Action::Generate { pan, zoom }
        } else {
            Action::Wait
        }
    }
}

} // verus!
