//! The worker that splits one capture.
//!
//! A [`Splitter`] decides, and does nothing else. It is told what happened
//! (an [`Event`]) and answers with what to do next (an [`Action`]); whoever
//! drives it opens the capture, pulls the records and writes the files. Every
//! record that arrives gets the next sequence number, starting at 1, and a
//! file of its own.

use crate::naming::{base_name, base_name_of, file_name_of, output_file_name, output_path, path_in};
use vstd::prelude::*;
use vstd::string::*;

verus! {

/// Why a worker gave up on its capture.
#[derive(Clone, Copy, Debug, PartialEq, Eq, Structural)]
pub enum SplitError {
    /// The path is a file, but not a capture that can be opened.
    OpenFailed,
    /// The filter expression was not accepted for this capture.
    FilterRejected,
    /// A record could not be read.
    ReadFailed,
    /// The output directory or an output file could not be written.
    WriteFailed,
    /// The capture holds more records than sequence numbers exist.
    SequenceExhausted,
}

/// What is said of a failure, in words.
pub open spec fn description_of(error: SplitError) -> Seq<char> {
    match error {
        SplitError::OpenFailed => "unable to open the capture file"@,
        SplitError::FilterRejected => "invalid filter expression"@,
        SplitError::ReadFailed => "unable to read the next packet"@,
        SplitError::WriteFailed => "unable to write an output file"@,
        SplitError::SequenceExhausted => "too many packets in one capture"@,
    }
}

impl SplitError {
    /// The failure in words, for the operator.
    pub fn describe(&self) -> (text: &'static str)
        ensures
            text@ == description_of(*self),
    {
        match self {
            SplitError::OpenFailed => "unable to open the capture file",
            SplitError::FilterRejected => "invalid filter expression",
            SplitError::ReadFailed => "unable to read the next packet",
            SplitError::WriteFailed => "unable to write an output file",
            SplitError::SequenceExhausted => "too many packets in one capture",
        }
    }
}

/// Where a worker stands.
#[derive(Clone, Copy, Debug, PartialEq, Eq, Structural)]
pub enum SplitterState {
    /// Not yet known whether the path is a regular file.
    Idle,
    /// The capture is being opened.
    Opening,
    /// The filter is being attached to the open capture.
    Filtering,
    /// Records are pulled and written, one at a time.
    Streaming,
    /// Finished: the capture is exhausted, or the path was no regular file.
    Done,
    /// Given up.
    Errored(SplitError),
}

/// What the driver reports to a worker.
#[derive(Debug, PartialEq, Eq)]
pub enum Event {
    /// The worker was started.
    Started,
    /// The path was looked at.
    PathProbed { is_regular_file: bool },
    /// The capture is open.
    Opened,
    /// The capture could not be opened.
    OpenFailed,
    /// The filter is in place.
    FilterAttached,
    /// The filter expression was refused.
    FilterRejected,
    /// The capture yielded a record, at `now_millis` milliseconds since the
    /// Unix epoch. Everything asked for before has been carried out.
    Packet { now_millis: u128, payload: Vec<u8> },
    /// The capture is exhausted. Everything asked for before has been carried out.
    EndOfStream,
    /// The next record could not be read.
    ReadFailed,
    /// The write that was asked for last did not succeed.
    WriteFailed,
}

/// What a worker asks its driver to do.
#[derive(Debug, PartialEq, Eq)]
pub enum Action {
    /// Find out whether `path` is a regular file; answer with `PathProbed`.
    ProbePath { path: String },
    /// Open the capture at `path`; answer with `Opened` or `OpenFailed`.
    OpenCapture { path: String },
    /// Attach `expression` to the open capture, before any record is pulled;
    /// answer with `FilterAttached` or `FilterRejected`.
    AttachFilter { expression: String },
    /// Pull the next record; answer with `Packet`, `EndOfStream` or `ReadFailed`.
    ReadNext,
    /// Make sure the output directory exists, write `payload` as the whole
    /// content of a new file at `path`, then pull the next record; answer with
    /// `WriteFailed`, or as for `ReadNext`.
    WritePacket { path: String, payload: Vec<u8> },
    /// Nothing is left to do.
    Stop,
}

/// An [`Event`] as a mathematical value.
pub ghost enum EventView {
    Started,
    PathProbed { is_regular_file: bool },
    Opened,
    OpenFailed,
    FilterAttached,
    FilterRejected,
    Packet { now_millis: nat, payload: Seq<u8> },
    EndOfStream,
    ReadFailed,
    WriteFailed,
}

/// An [`Action`] as a mathematical value.
pub ghost enum ActionView {
    ProbePath { path: Seq<char> },
    OpenCapture { path: Seq<char> },
    AttachFilter { expression: Seq<char> },
    ReadNext,
    WritePacket { path: Seq<char>, payload: Seq<u8> },
    Stop,
}

/// A [`Splitter`] as a mathematical value.
pub ghost struct SplitterView {
    /// The capture's path.
    pub path: Seq<char>,
    /// The filter expression; empty for none.
    pub filter: Seq<char>,
    pub state: SplitterState,
    /// How many records have arrived: the sequence number given out last.
    pub sequence: nat,
}

impl View for Event {
    type V = EventView;

    open spec fn view(&self) -> EventView {
        match *self {
            Event::Started => EventView::Started,
            Event::PathProbed { is_regular_file } => EventView::PathProbed { is_regular_file },
            Event::Opened => EventView::Opened,
            Event::OpenFailed => EventView::OpenFailed,
            Event::FilterAttached => EventView::FilterAttached,
            Event::FilterRejected => EventView::FilterRejected,
            Event::Packet { now_millis, payload } => EventView::Packet {
                now_millis: now_millis as nat,
                payload: payload@,
            },
            Event::EndOfStream => EventView::EndOfStream,
            Event::ReadFailed => EventView::ReadFailed,
            Event::WriteFailed => EventView::WriteFailed,
        }
    }
}

impl View for Action {
    type V = ActionView;

    open spec fn view(&self) -> ActionView {
        match *self {
            Action::ProbePath { path } => ActionView::ProbePath { path: path@ },
            Action::OpenCapture { path } => ActionView::OpenCapture { path: path@ },
            Action::AttachFilter { expression } => ActionView::AttachFilter {
                expression: expression@,
            },
            Action::ReadNext => ActionView::ReadNext,
            Action::WritePacket { path, payload } => ActionView::WritePacket {
                path: path@,
                payload: payload@,
            },
            Action::Stop => ActionView::Stop,
        }
    }
}

/// The directory that all output files go to, relative to the working directory.
pub open spec fn output_directory_name() -> Seq<char> {
    seq!['.', '/', 'o', 'u', 't', 'p', 'u', 't']
}

/// The largest sequence number.
pub open spec fn sequence_limit() -> nat {
    0xffff_ffff_ffff_ffff
}

/// Where record number `sequence` of the capture at `capture_path` is
/// written, at time `now_millis`.
pub open spec fn packet_path(capture_path: Seq<char>, now_millis: nat, sequence: nat) -> Seq<char> {
    path_in(output_directory_name(), file_name_of(now_millis, base_name_of(capture_path), sequence))
}

impl SplitterView {
    /// The worker as it is created for a capture and a filter.
    pub open spec fn initial(path: Seq<char>, filter: Seq<char>) -> SplitterView {
        SplitterView { path, filter, state: SplitterState::Idle, sequence: 0 }
    }

    /// The same worker in another state.
    pub open spec fn moved_to(self, state: SplitterState) -> SplitterView {
        SplitterView { state, ..self }
    }

    /// Whether nothing more will happen.
    pub open spec fn finished(self) -> bool {
        self.state is Done || self.state is Errored
    }
}

/// The worker's rule: what `event` leads to in state `s`, or `None` where
/// `s` does not await `event`.
pub open spec fn transition(s: SplitterView, event: EventView) -> Option<(SplitterView, ActionView)> {
    match (s.state, event) {
        (SplitterState::Idle, EventView::Started) => Some(
            (s, ActionView::ProbePath { path: s.path }),
        ),
        (SplitterState::Idle, EventView::PathProbed { is_regular_file }) => if is_regular_file {
            Some((s.moved_to(SplitterState::Opening), ActionView::OpenCapture { path: s.path }))
        } else {
            Some((s.moved_to(SplitterState::Done), ActionView::Stop))
        },
        (SplitterState::Opening, EventView::Opened) => if s.filter.len() > 0 {
            Some(
                (
                    s.moved_to(SplitterState::Filtering),
                    ActionView::AttachFilter { expression: s.filter },
                ),
            )
        } else {
            Some((s.moved_to(SplitterState::Streaming), ActionView::ReadNext))
        },
        (SplitterState::Opening, EventView::OpenFailed) => Some(
            (s.moved_to(SplitterState::Errored(SplitError::OpenFailed)), ActionView::Stop),
        ),
        (SplitterState::Filtering, EventView::FilterAttached) => Some(
            (s.moved_to(SplitterState::Streaming), ActionView::ReadNext),
        ),
        (SplitterState::Filtering, EventView::FilterRejected) => Some(
            (s.moved_to(SplitterState::Errored(SplitError::FilterRejected)), ActionView::Stop),
        ),
        (SplitterState::Streaming, EventView::Packet { now_millis, payload }) => if s.sequence
            < sequence_limit() {
            Some(
                (
                    SplitterView { sequence: s.sequence + 1, ..s },
                    ActionView::WritePacket {
                        path: packet_path(s.path, now_millis, s.sequence + 1),
                        payload,
                    },
                ),
            )
        } else {
            Some(
                (
                    s.moved_to(SplitterState::Errored(SplitError::SequenceExhausted)),
                    ActionView::Stop,
                ),
            )
        },
        (SplitterState::Streaming, EventView::EndOfStream) => Some(
            (s.moved_to(SplitterState::Done), ActionView::Stop),
        ),
        (SplitterState::Streaming, EventView::ReadFailed) => Some(
            (s.moved_to(SplitterState::Errored(SplitError::ReadFailed)), ActionView::Stop),
        ),
        (SplitterState::Streaming, EventView::WriteFailed) => if s.sequence > 0 {
            Some((s.moved_to(SplitterState::Errored(SplitError::WriteFailed)), ActionView::Stop))
        } else {
            None
        },
        _ => None,
    }
}

/// The directory that all output files go to.
pub fn output_directory() -> (dir: &'static str)
    ensures
        dir@ == output_directory_name(),
{
    proof {
        reveal_strlit("./output");
    }
    let dir = "./output";
    assert(dir@ =~= output_directory_name());
    dir
}

/// The worker for one capture.
#[derive(Debug)]
pub struct Splitter {
    path: String,
    filter: String,
    base: String,
    state: SplitterState,
    sequence: u64,
}

impl View for Splitter {
    type V = SplitterView;

    closed spec fn view(&self) -> SplitterView {
        SplitterView {
            path: self.path@,
            filter: self.filter@,
            state: self.state,
            sequence: self.sequence as nat,
        }
    }
}

impl Splitter {
    #[verifier::type_invariant]
    spec fn base_is_kept(self) -> bool {
        self.base@ == base_name_of(self.path@)
    }

    /// A worker for the capture at `path`, which lets through the records
    /// that `filter` selects, or all of them where `filter` is empty.
    pub fn new(path: String, filter: String) -> (worker: Splitter)
        ensures
            worker@ == SplitterView::initial(path@, filter@),
    {
        let base = base_name(path.as_str());
        Splitter { path, filter, base, state: SplitterState::Idle, sequence: 0 }
    }

    /// The state the worker is in.
    pub fn state(&self) -> (state: SplitterState)
        ensures
            state == self@.state,
    {
        self.state
    }

    /// How many records have arrived so far.
    pub fn sequence(&self) -> (sequence: u64)
        ensures
            sequence == self@.sequence,
    {
        self.sequence
    }

    /// The path of the capture.
    pub fn path(&self) -> (path: &str)
        ensures
            path@ == self@.path,
    {
        self.path.as_str()
    }

    /// The filter expression; empty where all records are let through.
    pub fn filter(&self) -> (filter: &str)
        ensures
            filter@ == self@.filter,
    {
        self.filter.as_str()
    }

    /// Whether the worker is `Done` or `Errored`.
    pub fn is_finished(&self) -> (finished: bool)
        ensures
            finished == self@.finished(),
    {
        match self.state {
            SplitterState::Done => true,
            SplitterState::Errored(_) => true,
            _ => false,
        }
    }

    fn stop_in(&mut self, state: SplitterState) -> (action: Option<Action>)
        ensures
            final(self)@ == old(self)@.moved_to(state),
            action is Some,
            action->0@ == ActionView::Stop,
    {
        proof {
            use_type_invariant(&*self);
        }
        self.state = state;
        Some(Action::Stop)
    }

    /// Takes in what happened and says what to do next.
    ///
    /// Returns `None`, and stays as it is, where the worker does not await
    /// `event` in its state; a finished worker awaits nothing.
    pub fn on_event(&mut self, event: Event) -> (action: Option<Action>)
        ensures
            match transition(old(self)@, event@) {
                Some((next, act)) => final(self)@ == next && action is Some && action->0@ == act,
                None => final(self)@ == old(self)@ && action is None,
            },
    {
        proof {
            use_type_invariant(&*self);
        }
        match self.state {
            SplitterState::Idle => match event {
                Event::Started => Some(Action::ProbePath { path: self.path.clone() }),
                Event::PathProbed { is_regular_file } => {
                    if is_regular_file {
                        self.state = SplitterState::Opening;
                        Some(Action::OpenCapture { path: self.path.clone() })
                    } else {
                        self.stop_in(SplitterState::Done)
                    }
                },
                _ => None,
            },
            SplitterState::Opening => match event {
                Event::Opened => {
                    if self.filter.as_str().unicode_len() > 0 {
                        self.state = SplitterState::Filtering;
                        Some(Action::AttachFilter { expression: self.filter.clone() })
                    } else {
                        self.state = SplitterState::Streaming;
                        Some(Action::ReadNext)
                    }
                },
                Event::OpenFailed => self.stop_in(SplitterState::Errored(SplitError::OpenFailed)),
                _ => None,
            },
            SplitterState::Filtering => match event {
                Event::FilterAttached => {
                    self.state = SplitterState::Streaming;
                    Some(Action::ReadNext)
                },
                Event::FilterRejected => self.stop_in(
                    SplitterState::Errored(SplitError::FilterRejected),
                ),
                _ => None,
            },
            SplitterState::Streaming => match event {
                Event::Packet { now_millis, payload } => {
                    if self.sequence < u64::MAX {
                        self.sequence = self.sequence + 1;
                        let name = output_file_name(now_millis, self.base.as_str(), self.sequence);
                        let path = output_path(output_directory(), name.as_str());
                        Some(Action::WritePacket { path, payload })
                    } else {
                        self.stop_in(SplitterState::Errored(SplitError::SequenceExhausted))
                    }
                },
                Event::EndOfStream => self.stop_in(SplitterState::Done),
                Event::ReadFailed => self.stop_in(SplitterState::Errored(SplitError::ReadFailed)),
                Event::WriteFailed => {
                    if self.sequence > 0 {
                        self.stop_in(SplitterState::Errored(SplitError::WriteFailed))
                    } else {
                        None
                    }
                },
                _ => None,
            },
            SplitterState::Done => None,
            SplitterState::Errored(_) => None,
        }
    }
}

} // verus!
