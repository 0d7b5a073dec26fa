//! The chained line reader as a state machine: it decides, pull by pull,
//! which source to open, when to read, and what to hand to the consumer,
//! while the caller performs the opening and reading and reports back.
use vstd::prelude::*;
use crate::line::strip_line_terminator;
use crate::line::strip_terminator;
use crate::resolve::resolve_sources;
use crate::resolve::source_views;
use crate::resolve::sources_of;
use crate::resolve::views_of;
use crate::resolve::Source;
use crate::resolve::SourceModel;

verus! {

/// What the caller reports to the reader.
pub enum Event {
    /// The consumer asks for the next element.
    Pull,
    /// The source asked for by `Action::Open` was opened.
    Opened,
    /// The source asked for by `Action::Open` could not be opened.
    OpenFailed,
    /// A raw line, terminator included, was read from the open source.
    LineRead(String),
    /// The open source has no more bytes.
    EndOfStream,
    /// Reading from the open source failed.
    ReadFailed,
}

/// What the reader asks of the caller next.
pub enum Action {
    /// Open the source at this position of the source list, then report
    /// `Opened` or `OpenFailed`.
    Open(usize),
    /// Read one line from the open source, then report `LineRead`,
    /// `EndOfStream` or `ReadFailed`.
    ReadLine,
    /// Hand this line to the consumer; the pull is done.
    Emit(String),
    /// Hand the error just reported to the consumer; the pull is done.
    Fail,
    /// Tell the consumer there are no more elements; the pull is done.
    Finish,
}

/// An event as a mathematical value.
pub enum EventModel {
    Pull,
    Opened,
    OpenFailed,
    LineRead(Seq<char>),
    EndOfStream,
    ReadFailed,
}

/// An action as a mathematical value.
pub enum ActionModel {
    Open(nat),
    ReadLine,
    Emit(Seq<char>),
    Fail,
    Finish,
}

impl View for Event {
    type V = EventModel;

    open spec fn view(&self) -> EventModel {
        match self {
            Event::Pull => EventModel::Pull,
            Event::Opened => EventModel::Opened,
            Event::OpenFailed => EventModel::OpenFailed,
            Event::LineRead(raw) => EventModel::LineRead(raw@),
            Event::EndOfStream => EventModel::EndOfStream,
            Event::ReadFailed => EventModel::ReadFailed,
        }
    }
}

impl View for Action {
    type V = ActionModel;

    open spec fn view(&self) -> ActionModel {
        match self {
            Action::Open(i) => ActionModel::Open(*i as nat),
            Action::ReadLine => ActionModel::ReadLine,
            Action::Emit(line) => ActionModel::Emit(line@),
            Action::Fail => ActionModel::Fail,
            Action::Finish => ActionModel::Finish,
        }
    }
}

/// The reader's state: the source list, the position of the active source,
/// and whether that source's stream is open. The position at or past the
/// end of the list is the exhausted state.
pub struct ReaderModel {
    pub sources: Seq<SourceModel>,
    pub index: nat,
    pub open: bool,
}

impl ReaderModel {
    /// Created at the first source, with nothing open.
    pub open spec fn initial(sources: Seq<SourceModel>) -> ReaderModel {
        ReaderModel { sources, index: 0, open: false }
    }

    /// The position stays within the list, and only a source in the list
    /// can be open.
    pub open spec fn wf(self) -> bool {
        &&& self.index <= self.sources.len()
        &&& self.open ==> self.index < self.sources.len()
    }

    /// No source has any further lines.
    pub open spec fn exhausted(self) -> bool {
        self.index >= self.sources.len()
    }

    /// The active source is released and the next one becomes active.
    pub open spec fn advance(self) -> ReaderModel {
        ReaderModel { index: self.index + 1, open: false, ..self }
    }

    /// What a pull asks for in this state.
    pub open spec fn pull_action(self) -> ActionModel {
        if self.exhausted() {
            ActionModel::Finish
        } else if self.open {
            ActionModel::ReadLine
        } else {
            ActionModel::Open(self.index)
        }
    }

    /// The next state and the action for event `e`.
    pub open spec fn step(self, e: EventModel) -> (ReaderModel, ActionModel) {
        match e {
            EventModel::Pull => (self, self.pull_action()),
            EventModel::Opened => if self.exhausted() {
                (self, ActionModel::Finish)
            } else {
                (ReaderModel { open: true, ..self }, ActionModel::ReadLine)
            },
            EventModel::OpenFailed => if self.exhausted() {
                (self, ActionModel::Fail)
            } else {
                (self.advance(), ActionModel::Fail)
            },
            EventModel::LineRead(raw) => (self, ActionModel::Emit(strip_terminator(raw))),
            EventModel::EndOfStream => if self.exhausted() {
                (self, ActionModel::Finish)
            } else {
                (self.advance(), self.advance().pull_action())
            },
            EventModel::ReadFailed => (self, ActionModel::Fail),
        }
    }
}

/// The chained line reader over an ordered list of sources.
pub struct FileInput {
    sources: Vec<Source>,
    current: usize,
    open: bool,
}

impl View for FileInput {
    type V = ReaderModel;

    closed spec fn view(&self) -> ReaderModel {
        ReaderModel {
            sources: source_views(self.sources@),
            index: self.current as nat,
            open: self.open,
        }
    }
}

impl FileInput {
    #[verifier::type_invariant]
    spec fn inv(&self) -> bool {
        &&& self.current <= self.sources.len()
        &&& self.open ==> self.current < self.sources.len()
    }

    /// A reader over the sources that the command line `args` (without the
    /// program name) names after `--parameter_name`, or over standard input
    /// when it names none. Nothing is opened yet.
    pub fn new(parameter_name: &str, args: &[String]) -> (r: FileInput)
        ensures
            r@ == ReaderModel::initial(sources_of(parameter_name@, views_of(args@))),
            r@.wf(),
    {
        FileInput::from_sources(resolve_sources(parameter_name, args))
    }

    /// A reader over `sources`, in order. Nothing is opened yet.
    pub fn from_sources(sources: Vec<Source>) -> (r: FileInput)
        ensures
            r@ == ReaderModel::initial(source_views(sources@)),
            r@.wf(),
    {
        FileInput { sources, current: 0, open: false }
    }

    /// The source at position `index`, if there is one.
    pub fn source(&self, index: usize) -> (r: Option<&Source>)
        ensures
            index < self@.sources.len() ==> (r matches Some(s) && s@ == self@.sources[index as int]),
            index >= self@.sources.len() ==> r is None,
    {
        if index < self.sources.len() {
            proof {
                assert(self@.sources[index as int] == self.sources@[index as int]@);
            }
            Some(&self.sources[index])
        } else {
            None
        }
    }

    /// Whether every source has been consumed.
    pub fn is_exhausted(&self) -> (r: bool)
        ensures
            r == self@.exhausted(),
    {
        self.current >= self.sources.len()
    }

    fn pull_action(&self) -> (r: Action)
        ensures
            r@ == self@.pull_action(),
    {
        if self.current >= self.sources.len() {
            Action::Finish
        } else if self.open {
            Action::ReadLine
        } else {
            Action::Open(self.current)
        }
    }

    fn advance(&mut self)
        requires
            old(self).current < old(self).sources.len(),
        ensures
            final(self)@ == old(self)@.advance(),
    {
        proof {
            use_type_invariant(&*self);
        }
        self.open = false;
        self.current = self.current + 1;
    }

    /// Takes the caller's report `event`, moves to the next state and says
    /// what the caller is to do next.
    pub fn step(&mut self, event: Event) -> (r: Action)
        ensures
            (final(self)@, r@) == old(self)@.step(event@),
            final(self)@.wf(),
    {
        proof {
            use_type_invariant(&*self);
        }
        let action = match event {
            Event::Pull => self.pull_action(),
            Event::Opened => if self.current >= self.sources.len() {
                Action::Finish
            } else {
                self.open = true;
                Action::ReadLine
            },
            Event::OpenFailed => {
                if self.current < self.sources.len() {
                    self.advance();
                }
                Action::Fail
            },
            Event::LineRead(raw) => Action::Emit(strip_line_terminator(raw.as_str())),
            Event::EndOfStream => if self.current >= self.sources.len() {
                Action::Finish
            } else {
                self.advance();
                self.pull_action()
            },
            Event::ReadFailed => Action::Fail,
        };
        proof {
            use_type_invariant(&*self);
        }
        action
    }
}

} // verus!
