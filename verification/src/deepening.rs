//! The decisions of a time-boxed iterative deepening: which depth to search
//! next, when to wait, and which move to return. The caller runs the
//! searches and watches the clock; it reports what happens as events and
//! carries out the actions that come back.

use crate::game::Move;
use vstd::prelude::*;

verus! {

/// Why a search returns no move.
#[derive(Debug, Clone, Copy, PartialEq, Eq, Structural)]
pub enum SearchError {
    /// The game is over.
    GameOver,
    /// The game is not over, but the team to move has no legal move.
    NoLegalMove,
}

/// Where an iterative deepening stands.
#[derive(Debug, Clone, Copy, PartialEq, Eq, Structural)]
pub enum Phase {
    /// Nothing has been started.
    Idle,
    /// The search of the given depth is running.
    Iterating(i32),
    /// The deadline has passed before the first search finished; its result
    /// is still awaited.
    Overdue,
    /// The deepest search allowed has finished.
    Converged,
    /// The deadline has passed.
    TimedOut,
}

/// What the caller reports.
#[derive(Debug, Clone, PartialEq, Eq)]
pub enum Event {
    /// The deepening is to begin.
    Begin,
    /// The running search has finished with this best move and this ranking
    /// of the moves.
    Finished { best: Move, order: Vec<usize> },
    /// The running search has failed.
    Failed,
    /// The deadline has passed.
    Deadline,
}

/// What the caller is to do.
#[derive(Debug, PartialEq, Eq)]
pub enum Action {
    /// Start the search of the given depth with the given hint at the order
    /// of the moves, and drop any search that is still running.
    Start { depth: i32, order: Vec<usize> },
    /// Wait for the next event.
    Wait,
    /// Stop and return this result.
    Return(Result<Move, SearchError>),
}

/// An event as a mathematical value.
pub enum EventView {
    Begin,
    Finished { best: Move, order: Seq<usize> },
    Failed,
    Deadline,
}

/// An action as a mathematical value.
pub enum ActionView {
    Start { depth: int, order: Seq<usize> },
    Wait,
    Return(Result<Move, SearchError>),
}

impl View for Event {
    type V = EventView;

    open spec fn view(&self) -> EventView {
        match self {
            Event::Begin => EventView::Begin,
            Event::Finished { best, order } => EventView::Finished { best: *best, order: order@ },
            Event::Failed => EventView::Failed,
            Event::Deadline => EventView::Deadline,
        }
    }
}

impl View for Action {
    type V = ActionView;

    open spec fn view(&self) -> ActionView {
        match self {
            Action::Start { depth, order } => ActionView::Start {
                depth: *depth as int,
                order: order@,
            },
            Action::Wait => ActionView::Wait,
            Action::Return(result) => ActionView::Return(*result),
        }
    }
}

/// An iterative deepening as a mathematical value.
pub struct DeepeningView {
    /// Where the deepening stands.
    pub phase: Phase,
    /// The deepest search allowed.
    pub cap: int,
    /// The best move of the deepest search that has finished.
    pub best: Option<Move>,
    /// The ranking of the moves by the deepest search that has finished.
    pub order: Seq<usize>,
}

/// The result that stands for the best move found, if any.
pub open spec fn result_of(best: Option<Move>) -> Result<Move, SearchError> {
    match best {
        Some(m) => Ok(m),
        None => Err(SearchError::NoLegalMove),
    }
}

impl DeepeningView {
    /// The deepening after the event, and what the caller is to do.
    ///
    /// A search that finishes in time replaces the result of the one before
    /// it and is followed by the next deeper one, until the deepest allowed
    /// has finished. A search that fails ends the deepening with the result
    /// of the one before. At the deadline the deepening returns the result
    /// of the deepest search that has finished and ignores the one that is
    /// running. If none has finished yet, it waits for the first and returns
    /// its result. Once it has returned a result it returns the same for
    /// good.
    pub open spec fn step(self, event: EventView) -> (DeepeningView, ActionView) {
        match self.phase {
            Phase::Idle => match event {
                EventView::Begin => (
                    DeepeningView { phase: Phase::Iterating(1), ..self },
                    ActionView::Start { depth: 1, order: self.order },
                ),
                _ => (self, ActionView::Wait),
            },
            Phase::Iterating(depth) => match event {
                EventView::Begin => (self, ActionView::Wait),
                EventView::Finished { best, order } => if depth < self.cap {
                    (
                        DeepeningView {
                            phase: Phase::Iterating((depth + 1) as i32),
                            best: Some(best),
                            order,
                            ..self
                        },
                        ActionView::Start { depth: depth + 1, order },
                    )
                } else {
                    (
                        DeepeningView { phase: Phase::Converged, best: Some(best), order, ..self },
                        ActionView::Return(Ok(best)),
                    )
                },
                EventView::Failed => (
                    DeepeningView { phase: Phase::Converged, ..self },
                    ActionView::Return(result_of(self.best)),
                ),
                EventView::Deadline => if self.best is Some {
                    (
                        DeepeningView { phase: Phase::TimedOut, ..self },
                        ActionView::Return(result_of(self.best)),
                    )
                } else {
                    (DeepeningView { phase: Phase::Overdue, ..self }, ActionView::Wait)
                },
            },
            Phase::Overdue => match event {
                EventView::Finished { best, order } => (
                    DeepeningView { phase: Phase::TimedOut, best: Some(best), order, ..self },
                    ActionView::Return(Ok(best)),
                ),
                EventView::Failed => (
                    DeepeningView { phase: Phase::TimedOut, ..self },
                    ActionView::Return(result_of(self.best)),
                ),
                _ => (self, ActionView::Wait),
            },
            Phase::Converged => (self, ActionView::Return(result_of(self.best))),
            Phase::TimedOut => (self, ActionView::Return(result_of(self.best))),
        }
    }

    /// The validity of a deepening: the depth of the running search lies
    /// between one and the deepest allowed.
    pub open spec fn wf(self) -> bool {
        &&& 1 <= self.cap <= i32::MAX
        &&& self.phase matches Phase::Iterating(depth) ==> 1 <= depth <= self.cap
    }
}

/// An iterative deepening.
#[derive(Debug)]
pub struct Deepening {
    phase: Phase,
    cap: i32,
    best: Option<Move>,
    order: Vec<usize>,
}

impl View for Deepening {
    type V = DeepeningView;

    closed spec fn view(&self) -> DeepeningView {
        DeepeningView {
            phase: self.phase,
            cap: self.cap as int,
            best: self.best,
            order: self.order@,
        }
    }
}

impl Deepening {
    /// Every deepening is valid.
    #[verifier::type_invariant]
    pub open spec fn valid(&self) -> bool {
        self@.wf()
    }

    /// A deepening that has not begun, up to the given depth, and to depth
    /// one if that is less.
    pub fn new(max_depth: i32) -> (r: Self)
        ensures
            r@ == (DeepeningView {
                phase: Phase::Idle,
                cap: if max_depth < 1 {
                    1
                } else {
                    max_depth as int
                },
                best: None,
                order: Seq::empty(),
            }),
    {
        let cap = if max_depth < 1 {
            1
        } else {
            max_depth
        };
        Deepening { phase: Phase::Idle, cap, best: None, order: Vec::new() }
    }

    /// Where the deepening stands.
    pub fn phase(&self) -> (r: Phase)
        ensures
            r == self@.phase,
    {
        self.phase
    }

    /// The best move of the deepest search that has finished.
    pub fn best(&self) -> (r: Option<Move>)
        ensures
            r == self@.best,
    {
        self.best
    }

    /// Takes an event and says what the caller is to do.
    pub fn step(&mut self, event: Event) -> (r: Action)
        ensures
            final(self)@ == old(self)@.step(event@).0,
            r@ == old(self)@.step(event@).1,
    {
        proof {
            use_type_invariant(&*self);
        }
        let best = self.best;
        match self.phase {
            Phase::Idle => match event {
                Event::Begin => {
                    let order = self.order.clone();
                    *self = Deepening {
                        phase: Phase::Iterating(1),
                        cap: self.cap,
                        best,
                        order: self.order.clone(),
                    };
                    Action::Start { depth: 1, order }
                },
                _ => Action::Wait,
            },
            Phase::Iterating(depth) => match event {
                Event::Begin => Action::Wait,
                Event::Finished { best, order } => {
                    if depth < self.cap {
                        *self = Deepening {
                            phase: Phase::Iterating(depth + 1),
                            cap: self.cap,
                            best: Some(best),
                            order: order.clone(),
                        };
                        Action::Start { depth: depth + 1, order }
                    } else {
                        *self = Deepening {
                            phase: Phase::Converged,
                            cap: self.cap,
                            best: Some(best),
                            order,
                        };
                        Action::Return(Ok(best))
                    }
                },
                Event::Failed => {
                    *self = Deepening {
                        phase: Phase::Converged,
                        cap: self.cap,
                        best,
                        order: self.order.clone(),
                    };
                    Action::Return(Self::result(best))
                },
                Event::Deadline => {
                    if best.is_some() {
                        *self = Deepening {
                            phase: Phase::TimedOut,
                            cap: self.cap,
                            best,
                            order: self.order.clone(),
                        };
                        Action::Return(Self::result(best))
                    } else {
                        *self = Deepening {
                            phase: Phase::Overdue,
                            cap: self.cap,
                            best,
                            order: self.order.clone(),
                        };
                        Action::Wait
                    }
                },
            },
            Phase::Overdue => match event {
                Event::Finished { best, order } => {
                    *self = Deepening {
                        phase: Phase::TimedOut,
                        cap: self.cap,
                        best: Some(best),
                        order,
                    };
                    Action::Return(Ok(best))
                },
                Event::Failed => {
                    *self = Deepening {
                        phase: Phase::TimedOut,
                        cap: self.cap,
                        best,
                        order: self.order.clone(),
                    };
                    Action::Return(Self::result(best))
                },
                _ => Action::Wait,
            },
            Phase::Converged => Action::Return(Self::result(best)),
            Phase::TimedOut => Action::Return(Self::result(best)),
        }
    }

    /// The result that stands for the best move found, if any.
    fn result(best: Option<Move>) -> (r: Result<Move, SearchError>)
        ensures
            r == result_of(best),
    {
        match best {
            Some(m) => Ok(m),
            None => Err(SearchError::NoLegalMove),
        }
    }
}

/// Anytime: a deepening whose deadline passes before its first search has
/// finished does not give up. It waits, and when that search finishes with
/// a move, it returns this move.
pub proof fn lemma_anytime(c: DeepeningView, m: Move, order: Seq<usize>)
    requires
        c.phase is Iterating,
        c.best is None,
    ensures
        c.step(EventView::Deadline).1 == ActionView::Wait,
        c.step(EventView::Deadline).0.step(EventView::Finished { best: m, order }).1
            == ActionView::Return(Ok(m)),
{
}

/// At the deadline a deepening returns the best move of the deepest search
/// that has finished, whatever the search that is running may find later.
pub proof fn lemma_deadline(c: DeepeningView, m: Move, later: EventView)
    requires
        c.phase is Iterating,
        c.best == Some(m),
    ensures
        c.step(EventView::Deadline).1 == ActionView::Return(Ok(m)),
        c.step(EventView::Deadline).0.step(later).1 == ActionView::Return(Ok(m)),
{
}

/// A deepening stays valid, and it starts a search only one ply deeper than
/// the one that finished, never deeper than allowed.
pub proof fn lemma_step(c: DeepeningView, event: EventView)
    requires
        c.wf(),
    ensures
        c.step(event).0.wf(),
        c.step(event).0.cap == c.cap,
        c.step(event).1 matches ActionView::Start { depth, .. } ==> 1 <= depth <= c.cap
            && c.step(event).0.phase == Phase::Iterating(depth as i32),
{
}

} // verus!
