//! What a scripted source does next, step by step.

use crate::artifacts::writer::sat;
use crate::frame::BlockFrame;
use crate::primitives::BlockRange;
use crate::request::{SourceBudget, SourceError};
use crate::testkit::benchmark::{check_frame, frame_refusal};
use vstd::prelude::*;

verus! {

/// A frame of a script, with what its shape check finds and its size in
/// memory.
#[derive(Debug)]
pub struct ScriptedFrame {
    pub frame: BlockFrame,
    pub shape_problem: Option<&'static str>,
    pub heap_bytes: u64,
}

/// One step of a scripted chunk. Delays are in milliseconds.
#[derive(Debug)]
pub enum HistoryStep {
    Frame(Box<ScriptedFrame>),
    Delay(u64),
    Error(SourceError),
}

/// One step of a scripted subscription. Delays are in milliseconds.
#[derive(Debug)]
pub enum EventStep<E> {
    Event(E),
    Delay(u64),
    Error(SourceError),
}

/// What a script comes to: its end, a failure of its own, a wait in
/// milliseconds, or the step at a position, which is a frame or an event to
/// hand out or an error to hand on.
#[derive(Debug)]
pub enum ScriptEvent {
    Finished,
    Failed(SourceError),
    Wait(u64),
    Deliver(usize),
    Raise(usize),
}

/// A scripted chunk that is being streamed.
#[derive(Clone, Copy, Debug)]
pub struct HistoryScript {
    pub chunk: usize,
    pub position: usize,
    pub range: BlockRange,
    pub budget: SourceBudget,
    pub frames: u64,
    pub bytes: u64,
    pub terminal: bool,
}

/// A frame that lies outside the range that is streamed.
pub open spec fn is_outside(step: HistoryStep, range: BlockRange) -> bool {
    match step {
        HistoryStep::Frame(scripted) => !range.has(scripted.frame.block.number.0 as int),
        _ => false,
    }
}

/// The first step from `position` on that is not a frame outside the range.
pub open spec fn next_step(steps: Seq<HistoryStep>, position: int, range: BlockRange) -> int
    decreases steps.len() - position,
{
    if position >= steps.len() {
        steps.len() as int
    } else if is_outside(steps[position], range) {
        next_step(steps, position + 1, range)
    } else {
        position
    }
}

impl HistoryScript {
    /// Why the stream refuses a frame, if it does.
    pub open spec fn refusal(self, scripted: ScriptedFrame) -> Option<SourceError> {
        match scripted.shape_problem {
            Some(problem) => Some(SourceError::CorruptFrame(problem)),
            None => frame_refusal(self.budget, self.frames, self.bytes, scripted.heap_bytes),
        }
    }

    /// What comes next. Frames outside the range are passed over, a frame that
    /// is corrupt or breaks a limit ends the stream, and so does cancelling.
    pub fn next(&mut self, steps: &Vec<HistoryStep>, cancelled: bool) -> (event: ScriptEvent)
        requires
            old(self).position <= steps@.len(),
        ensures
            final(self).position <= steps@.len(),
            ({
                let at = next_step(steps@, old(self).position as int, old(self).range);
                if old(self).terminal {
                    event is Finished && *final(self) == *old(self)
                } else if cancelled {
                    &&& event == ScriptEvent::Failed(SourceError::Cancelled)
                    &&& *final(self) == (HistoryScript { terminal: true, ..*old(self) })
                } else if at >= steps@.len() {
                    &&& event is Finished
                    &&& *final(self) == (HistoryScript {
                        position: steps@.len() as usize,
                        ..*old(self)
                    })
                } else {
                    let passed = HistoryScript { position: (at + 1) as usize, ..*old(self) };
                    match steps@[at] {
                        HistoryStep::Delay(millis) => {
                            &&& event == ScriptEvent::Wait(millis)
                            &&& *final(self) == passed
                        },
                        HistoryStep::Error(_) => {
                            &&& event == ScriptEvent::Raise(at as usize)
                            &&& *final(self) == (HistoryScript { terminal: true, ..passed })
                        },
                        HistoryStep::Frame(scripted) => match old(self).refusal(*scripted) {
                            Some(error) => {
                                &&& event == ScriptEvent::Failed(error)
                                &&& *final(self) == (HistoryScript { terminal: true, ..passed })
                            },
                            None => {
                                &&& event == ScriptEvent::Deliver(at as usize)
                                &&& *final(self) == (HistoryScript {
                                    frames: sat(old(self).frames + 1),
                                    bytes: sat(old(self).bytes + scripted.heap_bytes),
                                    ..passed
                                })
                            },
                        },
                    }
                }
            }),
    {
        if self.terminal {
            return ScriptEvent::Finished;
        }
        if cancelled {
            self.terminal = true;
            return ScriptEvent::Failed(SourceError::Cancelled);
        }
        let ghost start = *self;
        while self.position < steps.len()
            invariant
                self.position <= steps@.len(),
                *self == (HistoryScript { position: self.position, ..start }),
                start == *old(self),
                !start.terminal,
                !cancelled,
                next_step(steps@, start.position as int, start.range) == next_step(
                    steps@,
                    self.position as int,
                    start.range,
                ),
            decreases steps@.len() - self.position,
        {
            let at: usize = self.position;
            self.position = at + 1;
            match &steps[at] {
                HistoryStep::Delay(millis) => {
                    return ScriptEvent::Wait(*millis);
                },
                HistoryStep::Error(_) => {
                    self.terminal = true;
                    return ScriptEvent::Raise(at);
                },
                HistoryStep::Frame(scripted) => {
                    if self.range.contains(scripted.frame.block.number) {
                        if let Some(problem) = scripted.shape_problem {
                            self.terminal = true;
                            return ScriptEvent::Failed(SourceError::CorruptFrame(problem));
                        }
                        if let Err(error) = check_frame(
                            self.budget,
                            self.frames,
                            self.bytes,
                            scripted.heap_bytes,
                        ) {
                            self.terminal = true;
                            return ScriptEvent::Failed(error);
                        }
                        self.frames = self.frames.saturating_add(1);
                        self.bytes = self.bytes.saturating_add(scripted.heap_bytes);
                        return ScriptEvent::Deliver(at);
                    }
                },
            }
        }
        ScriptEvent::Finished
    }
}

/// A scripted subscription that is being followed.
#[derive(Clone, Copy, Debug)]
pub struct EventScript {
    pub position: usize,
    pub terminal: bool,
}

impl EventScript {
    pub fn new() -> (script: EventScript)
        ensures
            script == (EventScript { position: 0, terminal: false }),
    {
        EventScript { position: 0, terminal: false }
    }

    /// What comes next. An error ends the subscription, and so does cancelling.
    pub fn next<E>(&mut self, steps: &Vec<EventStep<E>>, cancelled: bool) -> (event: ScriptEvent)
        ensures
            ({
                let at = old(self).position;
                if old(self).terminal {
                    event is Finished && *final(self) == *old(self)
                } else if cancelled {
                    &&& event == ScriptEvent::Failed(SourceError::Cancelled)
                    &&& *final(self) == (EventScript { terminal: true, ..*old(self) })
                } else if at >= steps@.len() {
                    event is Finished && *final(self) == *old(self)
                } else {
                    &&& final(self).position == at + 1
                    &&& final(self).terminal == (steps@[at as int] is Error)
                    &&& event == (match steps@[at as int] {
                        EventStep::Event(_) => ScriptEvent::Deliver(at),
                        EventStep::Delay(millis) => ScriptEvent::Wait(millis),
                        EventStep::Error(_) => ScriptEvent::Raise(at),
                    })
                }
            }),
    {
        if self.terminal {
            return ScriptEvent::Finished;
        }
        if cancelled {
            self.terminal = true;
            return ScriptEvent::Failed(SourceError::Cancelled);
        }
        let at: usize = self.position;
        if at >= steps.len() {
            return ScriptEvent::Finished;
        }
        self.position = at + 1;
        match &steps[at] {
            EventStep::Event(_) => ScriptEvent::Deliver(at),
            EventStep::Delay(millis) => ScriptEvent::Wait(*millis),
            EventStep::Error(_) => {
                self.terminal = true;
                ScriptEvent::Raise(at)
            },
        }
    }
}

} // verus!
