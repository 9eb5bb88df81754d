//! The render loop's decisions: a two-state machine from events to what the
//! loop does next. Running the loop (polling, drawing, writing) is the caller's.
use vstd::prelude::*;

verus! {

#[derive(Clone, Copy, Debug, PartialEq, Eq, Structural)]
pub enum SessionState {
    Running,
    Stopped,
}

/// What the loop observed at the top of an iteration, or after a write.
#[derive(Clone, Copy, Debug, PartialEq, Eq, Structural)]
pub enum Event {
    /// No cancellation was requested: carry on.
    Tick,
    /// A cancellation was requested.
    Cancelled,
    /// Writing to the output failed.
    WriteFailed,
}

/// What the loop does next.
#[derive(Clone, Copy, Debug, PartialEq, Eq, Structural)]
pub enum Directive {
    /// Apply input, render the model and send the frame.
    DrawFrame,
    /// Send the command that deletes every image, then exit.
    DeleteAllImages,
    /// Send nothing more.
    Idle,
}

/// One transition: the next state and the directive for it.
pub open spec fn step(state: SessionState, event: Event) -> (SessionState, Directive) {
    match state {
        SessionState::Running => match event {
            Event::Tick => (SessionState::Running, Directive::DrawFrame),
            _ => (SessionState::Stopped, Directive::DeleteAllImages),
        },
        SessionState::Stopped => (SessionState::Stopped, Directive::Idle),
    }
}

/// The state after a sequence of events, and the directives given on the way.
pub open spec fn run(state: SessionState, events: Seq<Event>) -> (SessionState, Seq<Directive>)
    decreases events.len(),
{
    if events.len() == 0 {
        (state, Seq::empty())
    } else {
        let (next, d) = step(state, events[0]);
        let (last, rest) = run(next, events.drop_first());
        (last, seq![d] + rest)
    }
}

/// A stopped session gives nothing but `Idle`.
proof fn lemma_stopped_stays_idle(events: Seq<Event>)
    ensures
        run(SessionState::Stopped, events).0 == SessionState::Stopped,
        run(SessionState::Stopped, events).1.len() == events.len(),
        forall|j: int|
            0 <= j < events.len() ==> #[trigger] run(SessionState::Stopped, events).1[j]
                == Directive::Idle,
    decreases events.len(),
{
    if events.len() > 0 {
        lemma_stopped_stays_idle(events.drop_first());
    }
}

/// Deleting every image is the last command a session gives: after it comes
/// nothing but `Idle`, and a session ends stopped exactly when it gave it.
pub proof fn lemma_delete_all_is_last(events: Seq<Event>)
    ensures
        ({
            let (last, ds) = run(SessionState::Running, events);
            &&& ds.len() == events.len()
            &&& forall|i: int, j: int|
                0 <= i < j < ds.len() && #[trigger] ds[i] == Directive::DeleteAllImages ==> #[trigger] ds[j]
                    == Directive::Idle
            &&& (last == SessionState::Stopped <==> exists|i: int|
                0 <= i < ds.len() && #[trigger] ds[i] == Directive::DeleteAllImages)
        }),
    decreases events.len(),
{
    if events.len() > 0 {
        let rest = events.drop_first();
        let ds = run(SessionState::Running, events).1;
        if events[0] == Event::Tick {
            lemma_delete_all_is_last(rest);
            let tail = run(SessionState::Running, rest).1;
            assert(ds == seq![Directive::DrawFrame] + tail);
            assert forall|i: int, j: int|
                0 <= i < j < ds.len() && #[trigger] ds[i] == Directive::DeleteAllImages implies #[trigger] ds[j]
                    == Directive::Idle by {
                assert(ds[i] == tail[i - 1]);
                assert(ds[j] == tail[j - 1]);
            }
            if run(SessionState::Running, events).0 == SessionState::Stopped {
                let i = choose|i: int| 0 <= i < tail.len() && #[trigger] tail[i] == Directive::DeleteAllImages;
                assert(ds[i + 1] == Directive::DeleteAllImages);
            }
            if exists|i: int| 0 <= i < ds.len() && #[trigger] ds[i] == Directive::DeleteAllImages {
                let i = choose|i: int| 0 <= i < ds.len() && #[trigger] ds[i] == Directive::DeleteAllImages;
                assert(tail[i - 1] == Directive::DeleteAllImages);
            }
        } else {
            lemma_stopped_stays_idle(rest);
            let tail = run(SessionState::Stopped, rest).1;
            assert(ds == seq![Directive::DeleteAllImages] + tail);
            assert(ds[0] == Directive::DeleteAllImages);
            assert forall|i: int, j: int|
                0 <= i < j < ds.len() && #[trigger] ds[i] == Directive::DeleteAllImages implies #[trigger] ds[j]
                    == Directive::Idle by {
                assert(ds[j] == tail[j - 1]);
            }
        }
    }
}

/// The loop's state.
pub struct Session {
    state: SessionState,
}

impl Session {
    pub closed spec fn state(&self) -> SessionState {
        self.state
    }

    pub fn new() -> (s: Session)
        ensures
            s.state() == SessionState::Running,
    {
        Session { state: SessionState::Running }
    }

    pub fn is_running(&self) -> (r: bool)
        ensures
            r == (self.state() == SessionState::Running),
    {
        match self.state {
            SessionState::Running => true,
            SessionState::Stopped => false,
        }
    }

    /// Takes one event and says what to do next.
    pub fn on_event(&mut self, event: Event) -> (d: Directive)
        ensures
            (final(self).state(), d) == step(old(self).state(), event),
    {
        match self.state {
            SessionState::Running => match event {
                Event::Tick => Directive::DrawFrame,
                _ => {
                    self.state = SessionState::Stopped;
                    Directive::DeleteAllImages
                },
            },
            SessionState::Stopped => Directive::Idle,
        }
    }
}

} // verus!
