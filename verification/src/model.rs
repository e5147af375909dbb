//! The library's data: execution context, commands, log levels, step
//! states, events and the result of the release check.
use vstd::prelude::*;
use crate::text::opt_view;

verus! {

/// How a run behaves: `dry_run` simulates every system action, `debug`
/// adds debug events describing what is planned.
#[derive(Clone, Copy, Debug, PartialEq, Eq, Structural)]
pub struct AppContext {
    pub dry_run: bool,
    pub debug: bool,
}

/// How long the upgrade notification is postponed.
#[derive(Clone, Copy, Debug, PartialEq, Eq, Structural)]
pub enum DeferPeriod {
    Day,
    Week,
    Month,
}

/// A task of the upgrade assistant.
#[derive(Clone, Copy, Debug, PartialEq, Eq, Structural)]
pub enum Command {
    CheckNewRelease,
    CheckSources,
    DisableThirdParty,
    PreparePackages,
    DryRunUpgrade,
    ScheduleOfflineUpgrade,
    RunAll,
    Defer { period: DeferPeriod },
}

/// Severity of an event.
#[derive(Clone, Copy, Debug, PartialEq, Eq, Structural)]
pub enum LogLevel {
    Debug,
    Info,
    Warn,
    Error,
    Success,
}

/// Progress of the step an event belongs to.
#[derive(Clone, Copy, Debug, PartialEq, Eq, Structural)]
pub enum StepState {
    Pending,
    Running,
    Done,
    Failed,
}

/// A timestamped progress event.
#[derive(Debug)]
pub struct Event {
    pub timestamp: String,
    pub level: LogLevel,
    pub step: &'static str,
    pub state: StepState,
    pub message: String,
}

/// What an event says, apart from when it was made.
pub struct EventView {
    pub level: LogLevel,
    pub step: Seq<char>,
    pub state: StepState,
    pub message: Seq<char>,
}

impl View for Event {
    type V = EventView;

    open spec fn view(&self) -> EventView {
        EventView { level: self.level, step: self.step@, state: self.state, message: self.message@ }
    }
}

pub open spec fn ev(level: LogLevel, step: Seq<char>, state: StepState, message: Seq<char>) -> EventView {
    EventView { level, step, state, message }
}

/// The views of a list of events.
pub open spec fn events_view(v: Seq<Event>) -> Seq<EventView> {
    v.map_values(|e: Event| e@)
}

/// Local and published Debian releases, and whether a new major one is out.
#[derive(Debug, Clone)]
pub struct ReleaseCheckResult {
    pub update_available: bool,
    pub current_major: u32,
    pub current_codename: Option<String>,
    pub stable_major: u32,
    pub stable_codename: String,
    pub testing_codename: Option<String>,
}

pub struct ReleaseCheckView {
    pub update_available: bool,
    pub current_major: u32,
    pub current_codename: Option<Seq<char>>,
    pub stable_major: u32,
    pub stable_codename: Seq<char>,
    pub testing_codename: Option<Seq<char>>,
}

impl View for ReleaseCheckResult {
    type V = ReleaseCheckView;

    open spec fn view(&self) -> ReleaseCheckView {
        ReleaseCheckView {
            update_available: self.update_available,
            current_major: self.current_major,
            current_codename: opt_view(self.current_codename),
            stable_major: self.stable_major,
            stable_codename: self.stable_codename@,
            testing_codename: opt_view(self.testing_codename),
        }
    }
}

/// Wraps `chrono::Utc::now().to_rfc3339()`: the current time in RFC 3339
/// form.  It depends on the clock, so nothing is promised of the text.
#[verifier::external_body]
fn now_rfc3339() -> (r: String) {
    chrono::Utc::now().to_rfc3339()
}

/// Builds an event stamped with the current time.
pub fn event(level: LogLevel, step: &'static str, state: StepState, message: String) -> (e: Event)
    ensures
        e@ == ev(level, step@, state, message@),
{
    Event { timestamp: now_rfc3339(), level, step, state, message }
}

/// Builds an event from a message literal.
pub fn event_str(level: LogLevel, step: &'static str, state: StepState, message: &str) -> (e: Event)
    ensures
        e@ == ev(level, step@, state, message@),
{
    event(level, step, state, crate::text::string_of(message))
}

/// `format!("{:?}", o)` of an optional text, as std's `Debug` writes it.
pub uninterp spec fn debug_option_text(o: Option<Seq<char>>) -> Seq<char>;

/// A character that `Debug` writes as it is inside a quoted text: printable
/// ASCII other than quotes and the backslash.
pub open spec fn debug_plain(c: char) -> bool {
    ' ' <= c <= '~' && c != '"' && c != '\'' && c != '\\'
}

/// Wraps std's `Debug` formatting of `Option<String>`: `None`, or `Some(`
/// and the text quoted with its special characters escaped, then `)`.  The
/// contract names the result as a function of the value, and states it for
/// `None` and for texts with no character to escape; the escapes of other
/// characters are left unsaid.
#[verifier::external_body]
pub(crate) fn debug_option_string(o: &Option<String>) -> (r: String)
    ensures
        r@ == debug_option_text(opt_view(*o)),
        *o is None ==> r@ == "None"@,
        *o is Some && (forall|i: int| 0 <= i < o->0@.len() ==> debug_plain(#[trigger] o->0@[i]))
            ==> r@ == "Some(\""@ + o->0@ + "\")"@,
{
    format!("{:?}", o)
}

/// Pushes `e` on `v`, keeping the event views in step.
pub fn push_event(v: &mut Vec<Event>, e: Event)
    ensures
        events_view(final(v)@) == events_view(old(v)@).push(e@),
{
    let ghost old_v = v@;
    v.push(e);
    proof {
        assert(events_view(v@) =~= events_view(old_v).push(e@));
    }
}

} // verus!
