//! What a session asks of the system and what the system answers: the
//! requests a caller performs, the replies it hands back, and the actions
//! (events to report, then a request) that a session step produces.
use vstd::prelude::*;
use crate::model::{Event, EventView, ReleaseCheckResult, ReleaseCheckView, events_view};
use crate::text::opt_view;

verus! {

/// Which part of an input/output operation failed.
#[derive(Clone, Copy, Debug, PartialEq, Eq, Structural)]
pub enum IoStep {
    /// Opening, connecting or starting (open, HTTP request, spawn).
    Open,
    /// Reading (file content, response body, command output).
    Read,
    /// Writing.
    Write,
    /// Waiting for a command to end.
    Wait,
}

/// An entry of a directory listing.
#[derive(Clone, Debug)]
pub struct DirEntry {
    /// The file name, when it is valid UTF-8.
    pub name: Option<String>,
    /// The entry is a regular file.
    pub is_file: bool,
}

pub struct DirEntryView {
    pub name: Option<Seq<char>>,
    pub is_file: bool,
}

impl View for DirEntry {
    type V = DirEntryView;

    open spec fn view(&self) -> DirEntryView {
        DirEntryView { name: opt_view(self.name), is_file: self.is_file }
    }
}

pub open spec fn entries_view(v: Seq<DirEntry>) -> Seq<DirEntryView> {
    v.map_values(|e: DirEntry| e@)
}

/// Something the caller must do for the session, then answer with a `Reply`.
#[derive(Debug)]
pub enum Request {
    /// Read a text file; answer `Text` or `Failed`.
    ReadFile { path: String },
    /// Download a URL (an HTTP error status is a failure at `Open`); answer
    /// `Text`, or `Failed` at `Open` (request) or `Read` (body).
    Fetch { url: String },
    /// Tell whether a path exists; answer `Flag`.
    PathExists { path: String },
    /// Run `apt --help`; answer `Probe`, or `Failed` when it cannot run.
    ProbeApt,
    /// List a directory; answer `Entries` or `Failed`.
    ListDir { path: String },
    /// Replace a file's content; answer `Done` or `Failed`.
    WriteFile { path: String, content: String },
    /// Rename a file; answer `Done` or `Failed`.
    Rename { from: String, to: String },
    /// Create a directory and its parents; answer `Done` or `Failed`.
    CreateDir { path: String },
    /// Append the lines, each stamped with the current time as `[<time>] <line>`,
    /// to a file created if needed; answer `Done`, or `Failed` at `Open` or `Write`.
    AppendLines { path: String, lines: Vec<String> },
    /// Start `sh -c <command>` with its output piped; answer its output as
    /// `Output` pieces, then `OutputEnd`; `Failed` at `Open` or `Read`.
    Run { command: String },
    /// Keep reading the running command: answer the next `Output`,
    /// `OutputEnd`, or, after `OutputEnd`, `Exited` or `Failed` at `Wait`.
    Continue,
    /// Pause; answer `Done`.
    Sleep { millis: u64 },
    /// The session is over; see its outcome.
    Finish,
}

pub enum RequestView {
    ReadFile(Seq<char>),
    Fetch(Seq<char>),
    PathExists(Seq<char>),
    ProbeApt,
    ListDir(Seq<char>),
    WriteFile(Seq<char>, Seq<char>),
    Rename(Seq<char>, Seq<char>),
    CreateDir(Seq<char>),
    AppendLines(Seq<char>, Seq<Seq<char>>),
    Run(Seq<char>),
    Continue,
    Sleep(u64),
    Finish,
}

impl View for Request {
    type V = RequestView;

    open spec fn view(&self) -> RequestView {
        match self {
            Request::ReadFile { path } => RequestView::ReadFile(path@),
            Request::Fetch { url } => RequestView::Fetch(url@),
            Request::PathExists { path } => RequestView::PathExists(path@),
            Request::ProbeApt => RequestView::ProbeApt,
            Request::ListDir { path } => RequestView::ListDir(path@),
            Request::WriteFile { path, content } => RequestView::WriteFile(path@, content@),
            Request::Rename { from, to } => RequestView::Rename(from@, to@),
            Request::CreateDir { path } => RequestView::CreateDir(path@),
            Request::AppendLines { path, lines } => RequestView::AppendLines(path@, lines.deep_view()),
            Request::Run { command } => RequestView::Run(command@),
            Request::Continue => RequestView::Continue,
            Request::Sleep { millis } => RequestView::Sleep(*millis),
            Request::Finish => RequestView::Finish,
        }
    }
}

/// The caller's answer to the last request.
#[derive(Debug)]
pub enum Reply {
    /// First call of a session.
    Start,
    /// The operation succeeded.
    Done,
    /// Text read or downloaded.
    Text(String),
    /// Answer to `PathExists`.
    Flag(bool),
    /// Outcome of `apt --help`.
    Probe { success: bool, stdout: String, stderr: String },
    /// Directory entries, in listing order, unreadable entries left out.
    Entries(Vec<DirEntry>),
    /// A piece of a command's output.
    Output(String),
    /// The command's output ended.
    OutputEnd,
    /// The command ended.
    Exited { success: bool },
    /// The operation failed.
    Failed { at: IoStep, detail: String },
}

pub enum ReplyView {
    Start,
    Done,
    Text(Seq<char>),
    Flag(bool),
    Probe(bool, Seq<char>, Seq<char>),
    Entries(Seq<DirEntryView>),
    Output(Seq<char>),
    OutputEnd,
    Exited(bool),
    Failed(IoStep, Seq<char>),
}

impl View for Reply {
    type V = ReplyView;

    open spec fn view(&self) -> ReplyView {
        match self {
            Reply::Start => ReplyView::Start,
            Reply::Done => ReplyView::Done,
            Reply::Text(t) => ReplyView::Text(t@),
            Reply::Flag(b) => ReplyView::Flag(*b),
            Reply::Probe { success, stdout, stderr } => ReplyView::Probe(*success, stdout@, stderr@),
            Reply::Entries(v) => ReplyView::Entries(entries_view(v@)),
            Reply::Output(t) => ReplyView::Output(t@),
            Reply::OutputEnd => ReplyView::OutputEnd,
            Reply::Exited { success } => ReplyView::Exited(*success),
            Reply::Failed { at, detail } => ReplyView::Failed(*at, detail@),
        }
    }
}

/// Events to report, in order, then the request to perform.
#[derive(Debug)]
pub struct Action {
    pub events: Vec<Event>,
    pub request: Request,
}

pub struct ActionView {
    pub events: Seq<EventView>,
    pub request: RequestView,
}

impl View for Action {
    type V = ActionView;

    open spec fn view(&self) -> ActionView {
        ActionView { events: events_view(self.events@), request: self.request@ }
    }
}

/// Why a session failed: what it was doing, and the underlying error's text.
#[derive(Clone, Debug)]
pub struct CoreError {
    pub context: String,
    pub cause: Option<String>,
}

pub struct CoreErrorView {
    pub context: Seq<char>,
    pub cause: Option<Seq<char>>,
}

impl View for CoreError {
    type V = CoreErrorView;

    open spec fn view(&self) -> CoreErrorView {
        CoreErrorView { context: self.context@, cause: opt_view(self.cause) }
    }
}

/// How a session ended, or that it has not.
#[derive(Clone, Debug)]
pub enum Outcome {
    Running,
    Completed,
    Released(ReleaseCheckResult),
    Failed(CoreError),
}

pub enum OutcomeView {
    Running,
    Completed,
    Released(ReleaseCheckView),
    Failed(CoreErrorView),
}

impl View for Outcome {
    type V = OutcomeView;

    open spec fn view(&self) -> OutcomeView {
        match self {
            Outcome::Running => OutcomeView::Running,
            Outcome::Completed => OutcomeView::Completed,
            Outcome::Released(r) => OutcomeView::Released(r@),
            Outcome::Failed(e) => OutcomeView::Failed(e@),
        }
    }
}

/// The request changes the system (files, or a command that runs).
pub open spec fn modifies_system(r: RequestView) -> bool {
    match r {
        RequestView::WriteFile(_, _) => true,
        RequestView::Rename(_, _) => true,
        RequestView::CreateDir(_) => true,
        RequestView::AppendLines(_, _) => true,
        RequestView::Run(_) => true,
        _ => false,
    }
}

} // verus!
