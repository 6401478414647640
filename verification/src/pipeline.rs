//! The background work after a document was opened.
//!
//! One worker does two jobs in a row: it reads the annotations, which is
//! quick, and then makes the thumbnails page by page, which is slow. It sends
//! each result as soon as it has it, and rests a moment after each page so
//! that the interface keeps up. It stops when nobody listens any more. A
//! page that cannot be drawn is passed over; the work goes on.
//!
//! The worker here only decides what comes next. Whoever drives it does the
//! reading, the drawing, the sending and the resting, and reports back.

use vstd::prelude::*;

verus! {

/// How long the worker rests after each page, in milliseconds.
pub const PAGE_PAUSE_MILLIS: u64 = 10;

/// What the worker is to do next.
#[derive(Clone, Copy, Debug, PartialEq, Eq, Structural)]
pub enum WorkerAction {
    /// Read the annotations and send them.
    LoadAnnotations,
    /// Open the document for drawing and count its pages.
    OpenPages,
    /// Draw the page with this index and send the picture.
    RenderPage(i32),
    /// Rest for `PAGE_PAUSE_MILLIS`.
    Pause,
    /// Nothing more.
    Finish,
}

/// What came of the last action.
#[derive(Clone, Copy, Debug, PartialEq, Eq, Structural)]
pub enum WorkerEvent {
    /// The result was sent.
    Sent,
    /// The result could not be sent: nobody listens.
    SendFailed,
    /// The document was opened; it has this many pages.
    Opened(i32),
    /// The document could not be opened.
    OpenFailed,
    /// The page could not be drawn.
    RenderFailed,
    /// The rest is over.
    Rested,
}

/// Where the worker stands.
#[derive(Clone, Copy, Debug, PartialEq, Eq, Structural)]
pub enum Phase {
    Loading,
    Opening,
    Rendering,
    Resting,
    Done,
}

/// The worker of one opened document.
#[derive(Clone, Copy, Debug, PartialEq, Eq, Structural)]
pub struct OpenWorker {
    pub phase: Phase,
    /// The page that is drawn, or was drawn last.
    pub page: i32,
    /// The number of pages of the document, once it is known.
    pub total: i32,
}

impl OpenWorker {
    /// What the worker keeps true of itself: while it draws, the page is one
    /// of the document.
    pub open spec fn wf(self) -> bool {
        (self.phase == Phase::Rendering || self.phase == Phase::Resting) ==> 0 <= self.page
            < self.total
    }

    /// The worker after an event.
    pub open spec fn after(self, event: WorkerEvent) -> OpenWorker {
        match (self.phase, event) {
            (Phase::Loading, WorkerEvent::Sent) => OpenWorker { phase: Phase::Opening, ..self },
            (Phase::Opening, WorkerEvent::Opened(total)) => if total > 0 {
                OpenWorker { phase: Phase::Rendering, page: 0, total }
            } else {
                OpenWorker { phase: Phase::Done, ..self }
            },
            (Phase::Rendering, WorkerEvent::Sent) => OpenWorker { phase: Phase::Resting, ..self },
            (Phase::Rendering, WorkerEvent::RenderFailed) => OpenWorker {
                phase: Phase::Resting,
                ..self
            },
            (Phase::Resting, WorkerEvent::Rested) => if self.page + 1 < self.total {
                OpenWorker { phase: Phase::Rendering, page: (self.page + 1) as i32, ..self }
            } else {
                OpenWorker { phase: Phase::Done, ..self }
            },
            _ => OpenWorker { phase: Phase::Done, ..self },
        }
    }

    /// What a worker is to do in the state that it is in.
    pub open spec fn action(self) -> WorkerAction {
        match self.phase {
            Phase::Loading => WorkerAction::LoadAnnotations,
            Phase::Opening => WorkerAction::OpenPages,
            Phase::Rendering => WorkerAction::RenderPage(self.page),
            Phase::Resting => WorkerAction::Pause,
            Phase::Done => WorkerAction::Finish,
        }
    }

    /// A worker at the start of its work, and its first action: reading the
    /// annotations.
    pub fn start() -> (r: (OpenWorker, WorkerAction))
        ensures
            r.0 == (OpenWorker { phase: Phase::Loading, page: 0, total: 0 }),
            r.0.wf(),
            r.1 == r.0.action(),
    {
        (OpenWorker { phase: Phase::Loading, page: 0, total: 0 }, WorkerAction::LoadAnnotations)
    }

    /// Takes what came of the last action and tells the next one. The
    /// annotations come first, then the pages in rising order, each followed
    /// by a rest. The work ends after the last page, when a result cannot be
    /// sent, and when the document cannot be opened or has no pages; a page
    /// that cannot be drawn does not end it.
    pub fn step(&mut self, event: WorkerEvent) -> (r: WorkerAction)
        requires
            old(self).wf(),
        ensures
            *final(self) == old(self).after(event),
            r == final(self).action(),
            final(self).wf(),
    {
        let next = match (self.phase, event) {
            (Phase::Loading, WorkerEvent::Sent) => OpenWorker {
                phase: Phase::Opening,
                page: self.page,
                total: self.total,
            },
            (Phase::Opening, WorkerEvent::Opened(total)) => {
                if total > 0 {
                    OpenWorker { phase: Phase::Rendering, page: 0, total }
                } else {
                    OpenWorker { phase: Phase::Done, page: self.page, total: self.total }
                }
            },
            (Phase::Rendering, WorkerEvent::Sent) => OpenWorker {
                phase: Phase::Resting,
                page: self.page,
                total: self.total,
            },
            (Phase::Rendering, WorkerEvent::RenderFailed) => OpenWorker {
                phase: Phase::Resting,
                page: self.page,
                total: self.total,
            },
            (Phase::Resting, WorkerEvent::Rested) => {
                if self.page + 1 < self.total {
                    OpenWorker { phase: Phase::Rendering, page: self.page + 1, total: self.total }
                } else {
                    OpenWorker { phase: Phase::Done, page: self.page, total: self.total }
                }
            },
            _ => OpenWorker { phase: Phase::Done, page: self.page, total: self.total },
        };
        *self = next;
        match next.phase {
            Phase::Loading => WorkerAction::LoadAnnotations,
            Phase::Opening => WorkerAction::OpenPages,
            Phase::Rendering => WorkerAction::RenderPage(next.page),
            Phase::Resting => WorkerAction::Pause,
            Phase::Done => WorkerAction::Finish,
        }
    }
}

/// The worker after a run of events.
pub open spec fn after_events(worker: OpenWorker, events: Seq<WorkerEvent>) -> OpenWorker
    decreases events.len(),
{
    if events.len() == 0 {
        worker
    } else {
        after_events(worker, events.drop_last()).after(events.last())
    }
}

/// The pages that the worker is told to draw in the course of a run of
/// events, in the order in which it is told.
pub open spec fn pages_drawn(worker: OpenWorker, events: Seq<WorkerEvent>) -> Seq<i32>
    decreases events.len(),
{
    if events.len() == 0 {
        Seq::<i32>::empty()
    } else {
        let before = pages_drawn(worker, events.drop_last());
        match after_events(worker, events).action() {
            WorkerAction::RenderPage(page) => before.push(page),
            _ => before,
        }
    }
}

/// Whatever happens, a worker draws the pages in their order, from the first
/// on, none twice and none left out: the first page it is told to draw is
/// page zero, and each next one is the page after.
pub proof fn lemma_pages_in_order(events: Seq<WorkerEvent>)
    ensures
        ({
            let start = OpenWorker { phase: Phase::Loading, page: 0, total: 0 };
            let drawn = pages_drawn(start, events);
            let now = after_events(start, events);
            &&& now.wf()
            &&& forall|k: int| 0 <= k < drawn.len() ==> drawn[k] == k
            &&& now.phase == Phase::Loading || now.phase == Phase::Opening ==> drawn.len() == 0
            &&& now.phase == Phase::Rendering || now.phase == Phase::Resting ==> drawn.len()
                == now.page + 1
            &&& drawn.len() <= at_least_zero(now.total as int)
        }),
    decreases events.len(),
{
    if events.len() > 0 {
        lemma_pages_in_order(events.drop_last());
    }
}

/// The number, or zero where it is negative.
pub open spec fn at_least_zero(v: int) -> int {
    if v < 0 {
        0
    } else {
        v
    }
}

/// Once the work has ended it stays ended: nothing more is drawn.
pub proof fn lemma_done_stays_done(worker: OpenWorker, event: WorkerEvent)
    requires
        worker.phase == Phase::Done,
    ensures
        worker.after(event).phase == Phase::Done,
        worker.after(event).action() == WorkerAction::Finish,
{
}

} // verus!
