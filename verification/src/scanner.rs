//! Reading commands from a line editor: what follows from each thing that
//! the editor can hand back.

use vstd::prelude::*;

verus! {

/// What the line editor handed back.
#[derive(Debug, PartialEq)]
pub enum ScanEvent {
    /// A line was entered.
    Line(String),
    /// The user interrupted the prompt.
    Interrupted,
    /// The input has ended.
    Eof,
    /// The terminal changed its size.
    WindowResized,
    /// Reading failed in any other way.
    Failed,
}

/// What the reader does next.
#[derive(Debug, PartialEq)]
pub enum ScanStep {
    /// Enter the line into the history and hand it out as the next command.
    Accept(String),
    /// Hand out that there is no further command.
    Stop,
    /// Ask again.
    Retry,
    /// Give up with an error.
    Fail,
}

/// What follows from an event of the line editor.
pub open spec fn step_after(event: ScanEvent) -> ScanStep {
    match event {
        ScanEvent::Line(line) => ScanStep::Accept(line),
        ScanEvent::Interrupted => ScanStep::Stop,
        ScanEvent::Eof => ScanStep::Stop,
        ScanEvent::WindowResized => ScanStep::Retry,
        ScanEvent::Failed => ScanStep::Fail,
    }
}

/// Decides what the reader does after an event of the line editor.
pub fn scan_step(event: ScanEvent) -> (step: ScanStep)
    ensures
        step == step_after(event),
{
    match event {
        ScanEvent::Line(line) => ScanStep::Accept(line),
        ScanEvent::Interrupted => ScanStep::Stop,
        ScanEvent::Eof => ScanStep::Stop,
        ScanEvent::WindowResized => ScanStep::Retry,
        ScanEvent::Failed => ScanStep::Fail,
    }
}

} // verus!
