//! What the graphical assistant decides: how an event is shown, the
//! bounded log it keeps, how the privileged agent's output is read, and
//! which third-party sources it offers.
use vstd::prelude::*;
use crate::model::{Event, LogLevel, StepState};
use crate::protocol::{DirEntry, DirEntryView, Outcome, OutcomeView, entries_view};
use crate::third_party::{is_offered_source, offered_source};
use crate::text::{
    chars_of, contains, contains_text, decimal, decimal_string, find_char, join, join_strings,
    lemma_first_index_bounds, line_ranges, lines, opt_view, range_eq, slice_of, split_once,
    string_of, trim, trim_range,
};

verus! {

/// An event as the interface shows it: every part as text.
pub struct UiEvent {
    pub level: String,
    pub step: String,
    pub state: String,
    pub message: String,
}

pub struct UiEventView {
    pub level: Seq<char>,
    pub step: Seq<char>,
    pub state: Seq<char>,
    pub message: Seq<char>,
}

impl View for UiEvent {
    type V = UiEventView;

    open spec fn view(&self) -> UiEventView {
        UiEventView { level: self.level@, step: self.step@, state: self.state@, message: self.message@ }
    }
}

pub open spec fn ui_events_view(v: Seq<UiEvent>) -> Seq<UiEventView> {
    v.map_values(|e: UiEvent| e@)
}

/// How a severity is written for the interface.
pub open spec fn level_text(level: LogLevel) -> Seq<char> {
    match level {
        LogLevel::Debug => "debug"@,
        LogLevel::Info => "info"@,
        LogLevel::Warn => "warn"@,
        LogLevel::Error => "error"@,
        LogLevel::Success => "success"@,
    }
}

/// How a step state is written for the interface.
pub open spec fn state_text(state: StepState) -> Seq<char> {
    match state {
        StepState::Pending => "pending"@,
        StepState::Running => "running"@,
        StepState::Done => "done"@,
        StepState::Failed => "failed"@,
    }
}

pub fn level_to_str(level: LogLevel) -> (s: &'static str)
    ensures
        s@ == level_text(level),
{
    match level {
        LogLevel::Debug => "debug",
        LogLevel::Info => "info",
        LogLevel::Warn => "warn",
        LogLevel::Error => "error",
        LogLevel::Success => "success",
    }
}

pub fn state_to_str(state: StepState) -> (s: &'static str)
    ensures
        s@ == state_text(state),
{
    match state {
        StepState::Pending => "pending",
        StepState::Running => "running",
        StepState::Done => "done",
        StepState::Failed => "failed",
    }
}

/// The interface's form of an event of the library.
pub fn core_to_ui_event(event: Event) -> (u: UiEvent)
    ensures
        u@ == (UiEventView {
            level: level_text(event.level),
            step: event.step@,
            state: state_text(event.state),
            message: event.message@,
        }),
{
    UiEvent {
        level: string_of(level_to_str(event.level)),
        step: string_of(event.step),
        state: string_of(state_to_str(event.state)),
        message: event.message,
    }
}

/// The colour family of the status header.
#[derive(Clone, Copy, Debug, PartialEq, Eq, Structural)]
pub enum StatusTone {
    Neutral,
    Running,
    Success,
    Warn,
    Error,
}

/// The tone an event gives the status header.
pub open spec fn tone_of(e: UiEventView) -> StatusTone {
    if e.state == "failed"@ || e.level == "error"@ {
        StatusTone::Error
    } else if e.level == "warn"@ {
        StatusTone::Warn
    } else if e.state == "done"@ && e.level == "success"@ {
        StatusTone::Success
    } else if e.state == "running"@ {
        StatusTone::Running
    } else {
        StatusTone::Neutral
    }
}

/// `a == b` on texts.
pub fn text_eq(a: &str, b: &str) -> (r: bool)
    ensures
        r == (a@ == b@),
{
    let ca = chars_of(a);
    let r = range_eq(&ca, 0, ca.len(), &chars_of(b));
    proof {
        assert(ca@.subrange(0, ca.len() as int) =~= ca@);
    }
    r
}

pub fn status_tone(evt: &UiEvent) -> (t: StatusTone)
    ensures
        t == tone_of(evt@),
{
    if text_eq(evt.state.as_str(), "failed") || text_eq(evt.level.as_str(), "error") {
        StatusTone::Error
    } else if text_eq(evt.level.as_str(), "warn") {
        StatusTone::Warn
    } else if text_eq(evt.state.as_str(), "done") && text_eq(evt.level.as_str(), "success") {
        StatusTone::Success
    } else if text_eq(evt.state.as_str(), "running") {
        StatusTone::Running
    } else {
        StatusTone::Neutral
    }
}

/// The red, green and blue of each tone.
pub open spec fn tone_rgb(t: StatusTone) -> (u8, u8, u8) {
    match t {
        StatusTone::Neutral => (79, 91, 102),
        StatusTone::Running => (34, 102, 170),
        StatusTone::Success => (32, 128, 74),
        StatusTone::Warn => (176, 112, 0),
        StatusTone::Error => (182, 46, 46),
    }
}

pub fn tone_color(t: StatusTone) -> (c: (u8, u8, u8))
    ensures
        c == tone_rgb(t),
{
    match t {
        StatusTone::Neutral => (79, 91, 102),
        StatusTone::Running => (34, 102, 170),
        StatusTone::Success => (32, 128, 74),
        StatusTone::Warn => (176, 112, 0),
        StatusTone::Error => (182, 46, 46),
    }
}

/// The log line of an event: `[level] message (step, state)`.
pub open spec fn log_line_text(e: UiEventView) -> Seq<char> {
    "["@ + e.level + "] "@ + e.message + " ("@ + e.step + ", "@ + e.state + ")"@
}

pub fn log_line(evt: &UiEvent) -> (s: String)
    ensures
        s@ == log_line_text(evt@),
{
    string_of("[").concat(evt.level.as_str()).concat("] ").concat(evt.message.as_str()).concat(
        " (",
    ).concat(evt.step.as_str()).concat(", ").concat(evt.state.as_str()).concat(")")
}


// ---------------------------------------------------------------------------
// The log pane
// ---------------------------------------------------------------------------

/// The most lines the log pane keeps.
pub const MAX_LOG_LINES: usize = 1200;

/// The most log lines shown in one flush.
pub const LOG_LINES_PER_FLUSH: usize = 8;

/// The last `n` of `s`, or all of it.
pub open spec fn latest(s: Seq<Seq<char>>, n: nat) -> Seq<Seq<char>> {
    if s.len() <= n {
        s
    } else {
        s.skip(s.len() - n)
    }
}

/// The pane's text for the kept lines: one per line, then a blank margin.
pub open spec fn rendered_text(ring: Seq<Seq<char>>) -> Seq<char> {
    let t = join(ring, "\n"@);
    if t.len() == 0 {
        t
    } else {
        t + "\n\n"@
    }
}

/// Lines held back while the reader has the log in focus, and the lines kept.
pub struct LogView {
    deferred: Vec<String>,
    ring: Vec<String>,
}

pub struct LogViewModel {
    pub deferred: Seq<Seq<char>>,
    pub ring: Seq<Seq<char>>,
}

impl View for LogView {
    type V = LogViewModel;

    closed spec fn view(&self) -> LogViewModel {
        LogViewModel { deferred: self.deferred.deep_view(), ring: self.ring.deep_view() }
    }
}

/// Adding `lines`: held back while the log has focus; otherwise shown after
/// those held back, keeping the latest `MAX_LOG_LINES`, with the new text.
pub open spec fn append_spec(v: LogViewModel, lines: Seq<Seq<char>>, has_focus: bool) -> (LogViewModel, Option<Seq<char>>) {
    if lines.len() == 0 {
        (v, None)
    } else if has_focus {
        (LogViewModel { deferred: v.deferred + lines, ring: v.ring }, None)
    } else {
        let ring = latest(v.ring + v.deferred + lines, MAX_LOG_LINES as nat);
        (LogViewModel { deferred: seq![], ring }, Some(rendered_text(ring)))
    }
}

fn push_all(dst: &mut Vec<String>, src: &Vec<String>)
    ensures
        final(dst).deep_view() == old(dst).deep_view() + src.deep_view(),
{
    let ghost d0 = dst.deep_view();
    let mut k: usize = 0;
    while k < src.len()
        invariant
            0 <= k <= src.len(),
            dst.deep_view() == d0 + src.deep_view().take(k as int),
        decreases src.len() - k,
    {
        let ghost before = dst.deep_view();
        dst.push(src[k].clone());
        proof {
            assert(src.deep_view().take(k + 1) =~= src.deep_view().take(k as int).push(
                src.deep_view()[k as int],
            ));
            assert(dst.deep_view() =~= before.push(src.deep_view()[k as int]));
        }
        k = k + 1;
    }
    proof {
        assert(src.deep_view().take(src.len() as int) =~= src.deep_view());
    }
}

/// The lines of `src` from `start` on.
fn copy_from(src: &Vec<String>, start: usize) -> (r: Vec<String>)
    requires
        start <= src.len(),
    ensures
        r.deep_view() == src.deep_view().skip(start as int),
{
    let mut r: Vec<String> = Vec::new();
    let mut k: usize = start;
    while k < src.len()
        invariant
            start <= k <= src.len(),
            r.deep_view() == src.deep_view().subrange(start as int, k as int),
        decreases src.len() - k,
    {
        let ghost before = r.deep_view();
        r.push(src[k].clone());
        proof {
            assert(src.deep_view().subrange(start as int, k + 1) =~= src.deep_view().subrange(
                start as int,
                k as int,
            ).push(src.deep_view()[k as int]));
            assert(r.deep_view() =~= before.push(src.deep_view()[k as int]));
        }
        k = k + 1;
    }
    proof {
        assert(src.deep_view().subrange(start as int, src.len() as int) =~= src.deep_view().skip(
            start as int,
        ));
    }
    r
}

impl LogView {
    /// The pane never keeps more than `MAX_LOG_LINES` lines.
    #[verifier::type_invariant]
    spec fn bounded(&self) -> bool {
        self.ring.len() <= MAX_LOG_LINES
    }

    pub fn new() -> (r: LogView)
        ensures
            r@.deferred == Seq::<Seq<char>>::empty(),
            r@.ring == Seq::<Seq<char>>::empty(),
    {
        let r = LogView { deferred: Vec::new(), ring: Vec::new() };
        proof {
            assert(r.deferred.deep_view() =~= Seq::<Seq<char>>::empty());
            assert(r.ring.deep_view() =~= Seq::<Seq<char>>::empty());
        }
        r
    }

    /// The lines kept, oldest first.
    pub fn log_ring(&self) -> (r: &Vec<String>)
        ensures
            r.deep_view() == self@.ring,
            r.len() <= MAX_LOG_LINES,
    {
        proof {
            use_type_invariant(self);
        }
        &self.ring
    }

    /// The lines held back while the log has focus.
    pub fn deferred_log_lines(&self) -> (r: &Vec<String>)
        ensures
            r.deep_view() == self@.deferred,
    {
        &self.deferred
    }

    /// Adds a batch of lines; gives the pane's new text when it changes.
    pub fn append_logs_batch(&mut self, lines: &Vec<String>, has_focus: bool) -> (r: Option<String>)
        ensures
            (final(self)@, match r {
                Some(t) => Some(t@),
                None => None::<Seq<char>>,
            }) == append_spec(old(self)@, lines.deep_view(), has_focus),
            final(self)@.ring.len() <= MAX_LOG_LINES,
    {
        proof {
            use_type_invariant(&*self);
        }
        if lines.len() == 0 {
            return None;
        }
        if has_focus {
            let mut held: Vec<String> = Vec::new();
            std::mem::swap(&mut held, &mut self.deferred);
            push_all(&mut held, lines);
            self.deferred = held;
            return None;
        }
        let mut all: Vec<String> = Vec::new();
        proof {
            assert(all.deep_view() =~= Seq::<Seq<char>>::empty());
        }
        push_all(&mut all, &self.ring);
        push_all(&mut all, &self.deferred);
        push_all(&mut all, lines);
        let start = if all.len() > MAX_LOG_LINES {
            all.len() - MAX_LOG_LINES
        } else {
            0
        };
        let ring = copy_from(&all, start);
        proof {
            assert(ring.deep_view().len() == ring@.len());
            assert(all.deep_view().len() == all@.len());
        }
        self.ring = ring;
        self.deferred = Vec::new();
        proof {
            assert(self.deferred.deep_view() =~= Seq::<Seq<char>>::empty());
            assert(Seq::<Seq<char>>::empty() + self.ring.deep_view() =~= self.ring.deep_view());
            if all.len() <= MAX_LOG_LINES {
                assert(all.deep_view().skip(0) =~= all.deep_view());
            }
        }
        let text = join_strings(&self.ring, "\n");
        if text.as_str().unicode_len() == 0 {
            Some(text)
        } else {
            Some(text.concat("\n\n"))
        }
    }

    /// Adds one line.
    pub fn append_log(&mut self, line: &str, has_focus: bool) -> (r: Option<String>)
        ensures
            (final(self)@, match r {
                Some(t) => Some(t@),
                None => None::<Seq<char>>,
            }) == append_spec(old(self)@, seq![line@], has_focus),
            final(self)@.ring.len() <= MAX_LOG_LINES,
    {
        let mut v: Vec<String> = Vec::new();
        v.push(string_of(line));
        proof {
            assert(v.deep_view() =~= seq![line@]);
        }
        self.append_logs_batch(&v, has_focus)
    }
}

/// What showing an event changes on screen: the status header's text and
/// tone, and the log pane's new text when it changes.
pub struct UiUpdate {
    pub header: String,
    pub tone: StatusTone,
    pub log_text: Option<String>,
}

/// Shows an event: the header takes its message and tone, and its log line
/// is added to the pane.
pub fn apply_ui_event(view: &mut LogView, evt: UiEvent, has_focus: bool) -> (u: UiUpdate)
    ensures
        u.header@ == evt.message@,
        u.tone == tone_of(evt@),
        (final(view)@, match u.log_text {
            Some(t) => Some(t@),
            None => None::<Seq<char>>,
        }) == append_spec(old(view)@, seq![log_line_text(evt@)], has_focus),
{
    let tone = status_tone(&evt);
    let line = log_line(&evt);
    let log_text = view.append_log(line.as_str(), has_focus);
    UiUpdate { header: evt.message, tone, log_text }
}

/// Takes the next events to show, at most `LOG_LINES_PER_FLUSH`, as log lines.
pub fn take_flush_batch(pending: &mut Vec<UiEvent>) -> (lines: Vec<String>)
    ensures
        ({
            let old_v = ui_events_view(old(pending)@);
            let n = if old_v.len() < LOG_LINES_PER_FLUSH { old_v.len() as int } else {
                LOG_LINES_PER_FLUSH as int
            };
            &&& ui_events_view(final(pending)@) == old_v.skip(n)
            &&& lines.deep_view() == old_v.take(n).map_values(|e: UiEventView| log_line_text(e))
        }),
{
    let ghost old_v = ui_events_view(pending@);
    assert(old_v.len() == pending.len());
    let n: usize = if pending.len() < LOG_LINES_PER_FLUSH {
        pending.len()
    } else {
        LOG_LINES_PER_FLUSH
    };
    let ghost f = |e: UiEventView| log_line_text(e);
    let mut lines: Vec<String> = Vec::new();
    let mut k: usize = 0;
    proof {
        assert(lines.deep_view() =~= old_v.take(0).map_values(f));
        assert(ui_events_view(pending@) =~= old_v.skip(0));
    }
    while k < n
        invariant
            n <= old_v.len(),
            k <= n,
            f == (|e: UiEventView| log_line_text(e)),
            ui_events_view(pending@) == old_v.skip(k as int),
            pending.len() == old_v.len() - k,
            lines.deep_view() == old_v.take(k as int).map_values(f),
        decreases n - k,
    {
        let ghost before = pending@;
        proof {
            assert(ui_events_view(before)[0] == before[0]@);
            assert(old_v.skip(k as int)[0] == old_v[k as int]);
        }
        let evt = pending.remove(0);
        proof {
            assert(evt@ == old_v[k as int]);
            assert(pending@ =~= before.subrange(1, before.len() as int));
            assert forall|i: int| 0 <= i < pending@.len() implies #[trigger] ui_events_view(
                pending@,
            )[i] == old_v.skip(k + 1)[i] by {
                assert(pending@[i] == before[i + 1]);
                assert(ui_events_view(before)[i + 1] == before[i + 1]@);
            }
            assert(ui_events_view(pending@) =~= old_v.skip(k + 1));
        }
        let ghost lb = lines.deep_view();
        lines.push(log_line(&evt));
        proof {
            assert(old_v.take(k + 1).map_values(f) =~= old_v.take(k as int).map_values(f).push(
                f(old_v[k as int]),
            ));
            assert(lines.deep_view() =~= lb.push(log_line_text(evt@)));
        }
        k = k + 1;
    }
    lines
}


// ---------------------------------------------------------------------------
// Backend output
// ---------------------------------------------------------------------------

/// The text fields `level`, `step`, `state` and `message` of a JSON object.
pub struct JsonEventFields {
    pub level: Option<String>,
    pub step: Option<String>,
    pub state: Option<String>,
    pub message: Option<String>,
}

pub open spec fn fields_view(f: Option<JsonEventFields>) -> Option<
    (Option<Seq<char>>, Option<Seq<char>>, Option<Seq<char>>, Option<Seq<char>>),
> {
    match f {
        Some(f) => Some((opt_view(f.level), opt_view(f.step), opt_view(f.state), opt_view(f.message))),
        None => None,
    }
}

/// What `serde_json` reads from a line: `None` when it is not JSON, else
/// the `level`, `step`, `state` and `message` members that are strings.
pub uninterp spec fn json_event_fields(line: Seq<char>) -> Option<
    (Option<Seq<char>>, Option<Seq<char>>, Option<Seq<char>>, Option<Seq<char>>),
>;

/// Parses `line` with `serde_json::from_str` into a `serde_json::Value` and
/// reads its string members `level`, `step`, `state` and `message`; the
/// contract only names the result as a function of the line.
#[verifier::external_body]
fn read_json_event_fields(line: &str) -> (r: Option<JsonEventFields>)
    ensures
        fields_view(r) == json_event_fields(line@),
{
    let v = serde_json::from_str::<serde_json::Value>(line).ok()?;
    let field = |key: &str| v.get(key).and_then(|x| x.as_str()).map(|t| t.to_string());
    Some(
        JsonEventFields {
            level: field("level"),
            step: field("step"),
            state: field("state"),
            message: field("message"),
        },
    )
}

pub open spec fn or_text(o: Option<Seq<char>>, default: Seq<char>) -> Seq<char> {
    match o {
        Some(t) => t,
        None => default,
    }
}

/// The event shown for a line of backend output, given what JSON holds in it.
pub open spec fn ui_event_of_line(
    fields: Option<(Option<Seq<char>>, Option<Seq<char>>, Option<Seq<char>>, Option<Seq<char>>)>,
    line: Seq<char>,
) -> UiEventView {
    match fields {
        Some((level, step, state, message)) => UiEventView {
            level: or_text(level, "info"@),
            step: or_text(step, "backend"@),
            state: or_text(state, "pending"@),
            message: or_text(message, line),
        },
        None => UiEventView {
            level: "info"@,
            step: "backend"@,
            state: "pending"@,
            message: line,
        },
    }
}

fn or_string(o: Option<String>, default: &str) -> (r: String)
    ensures
        r@ == or_text(opt_view(o), default@),
{
    match o {
        Some(t) => t,
        None => string_of(default),
    }
}

/// The event shown for `line`, from the JSON members read in it.
pub fn ui_event_from_fields(fields: Option<JsonEventFields>, line: &str) -> (e: UiEvent)
    ensures
        e@ == ui_event_of_line(fields_view(fields), line@),
{
    match fields {
        Some(f) => UiEvent {
            level: or_string(f.level, "info"),
            step: or_string(f.step, "backend"),
            state: or_string(f.state, "pending"),
            message: or_string(f.message, line),
        },
        None => UiEvent {
            level: string_of("info"),
            step: string_of("backend"),
            state: string_of("pending"),
            message: string_of(line),
        },
    }
}

/// The events of backend output lines: one per line that is not blank.
pub open spec fn backend_events(ls: Seq<Seq<char>>) -> Seq<UiEventView>
    decreases ls.len(),
{
    if ls.len() == 0 {
        seq![]
    } else {
        let prev = backend_events(ls.drop_last());
        let l = ls.last();
        if trim(l).len() == 0 {
            prev
        } else {
            prev.push(ui_event_of_line(json_event_fields(l), l))
        }
    }
}

/// Reads the backend's JSON lines as events; a line that is not JSON is
/// shown as it is.
pub fn parse_backend_json_events(stdout: &str) -> (v: Vec<UiEvent>)
    ensures
        ui_events_view(v@) == backend_events(lines(stdout@)),
{
    let cs = chars_of(stdout);
    let ranges = line_ranges(&cs);
    let ghost ls = lines(cs@);
    let mut out: Vec<UiEvent> = Vec::new();
    let mut k: usize = 0;
    proof {
        assert(ui_events_view(out@) =~= backend_events(ls.take(0)));
    }
    while k < ranges.len()
        invariant
            cs@ == stdout@,
            ls == lines(cs@),
            ranges.len() == ls.len(),
            forall|j: int|
                0 <= j < ranges.len() ==> (#[trigger] ranges@[j]).0 <= ranges@[j].1 <= cs.len()
                    && cs@.subrange(ranges@[j].0 as int, ranges@[j].1 as int) == ls[j],
            k <= ranges.len(),
            ui_events_view(out@) == backend_events(ls.take(k as int)),
        decreases ranges.len() - k,
    {
        let (a, b) = ranges[k];
        let (x, y) = trim_range(&cs, a, b);
        proof {
            assert(ls.take(k + 1).drop_last() =~= ls.take(k as int));
            assert(ls.take(k + 1).last() == ls[k as int]);
        }
        if x < y {
            let line = slice_of(stdout, a, b);
            let fields = read_json_event_fields(line);
            let ghost before = ui_events_view(out@);
            out.push(ui_event_from_fields(fields, line));
            proof {
                assert(ui_events_view(out@) =~= before.push(
                    ui_event_of_line(json_event_fields(ls[k as int]), ls[k as int]),
                ));
            }
        }
        k = k + 1;
    }
    proof {
        assert(ls.take(ranges.len() as int) =~= ls);
    }
    out
}


// ---------------------------------------------------------------------------
// The privileged agent
// ---------------------------------------------------------------------------

/// The marker that starts the agent's report that a command ended.
pub open spec fn agent_done_prefix() -> Seq<char> {
    "__AGENT_DONE__"@
}

/// The status of an end report: its first `|`-separated part.
pub open spec fn done_status(tail: Seq<char>) -> Seq<char> {
    match split_once(tail, '|') {
        Some((a, _)) => a,
        None => tail,
    }
}

/// The command of an end report: its second `|`-separated part, or nothing.
pub open spec fn done_command(tail: Seq<char>) -> Seq<char> {
    match split_once(tail, '|') {
        Some((_, rest)) => match split_once(rest, '|') {
            Some((b, _)) => b,
            None => rest,
        },
        None => seq![],
    }
}

/// What a line of the agent's output means while `sub` runs.
pub enum AgentLine {
    /// A blank line.
    Skip,
    /// `sub` ended well.
    Done,
    /// `sub` failed.
    Failed,
    /// Events to show.
    Events(Vec<UiEvent>),
}

pub enum AgentLineView {
    Skip,
    Done,
    Failed,
    Events(Seq<UiEventView>),
}

impl View for AgentLine {
    type V = AgentLineView;

    open spec fn view(&self) -> AgentLineView {
        match self {
            AgentLine::Skip => AgentLineView::Skip,
            AgentLine::Done => AgentLineView::Done,
            AgentLine::Failed => AgentLineView::Failed,
            AgentLine::Events(v) => AgentLineView::Events(ui_events_view(v@)),
        }
    }
}

/// The meaning of an agent output line while `sub` runs: blank lines are
/// skipped; `__AGENT_DONE__|<status>|<command>` for `sub` ends it, well when
/// the status is `ok`; anything else is shown as events.
pub open spec fn agent_line_spec(line: Seq<char>, sub: Seq<char>) -> AgentLineView {
    let l = trim(line);
    let p = split_once(l, '|');
    if l.len() == 0 {
        AgentLineView::Skip
    } else if p is Some && (p->0).0 == agent_done_prefix() && done_command((p->0).1) == sub {
        if done_status((p->0).1) == "ok"@ {
            AgentLineView::Done
        } else {
            AgentLineView::Failed
        }
    } else {
        AgentLineView::Events(backend_events(lines(l)))
    }
}

/// Where the first `c` of `cs[a..b]` is, as `split_once` cuts there.
fn split_at_char(cs: &Vec<char>, a: usize, b: usize, c: char) -> (r: Option<usize>)
    requires
        a <= b <= cs.len(),
    ensures
        match r {
            Some(k) => a <= k < b && split_once(cs@.subrange(a as int, b as int), c) == Some(
                (cs@.subrange(a as int, k as int), cs@.subrange(k + 1, b as int)),
            ),
            None => split_once(cs@.subrange(a as int, b as int), c) is None,
        },
{
    let k = find_char(cs, a, b, c);
    if k < b {
        proof {
            let t = cs@.subrange(a as int, b as int);
            assert(t.take(k - a) =~= cs@.subrange(a as int, k as int));
            assert(t.skip(k - a + 1) =~= cs@.subrange(k + 1, b as int));
        }
        Some(k)
    } else {
        None
    }
}

fn status_end(cs: &Vec<char>, a: usize, b: usize) -> (r: usize)
    requires
        a <= b <= cs.len(),
    ensures
        a <= r <= b,
        cs@.subrange(a as int, r as int) == done_status(cs@.subrange(a as int, b as int)),
{
    match split_at_char(cs, a, b, '|') {
        Some(k) => k,
        None => b,
    }
}

fn command_bounds(cs: &Vec<char>, a: usize, b: usize) -> (r: (usize, usize))
    requires
        a <= b <= cs.len(),
    ensures
        a <= r.0 <= r.1 <= b,
        cs@.subrange(r.0 as int, r.1 as int) == done_command(cs@.subrange(a as int, b as int)),
{
    match split_at_char(cs, a, b, '|') {
        Some(k) => match split_at_char(cs, k + 1, b, '|') {
            Some(j) => (k + 1, j),
            None => (k + 1, b),
        },
        None => {
            proof {
                assert(cs@.subrange(b as int, b as int) =~= Seq::<char>::empty());
            }
            (b, b)
        },
    }
}

/// Reads a line of the agent's output while `sub` runs.
pub fn classify_agent_line(line: &str, sub: &str) -> (r: AgentLine)
    ensures
        r@ == agent_line_spec(line@, sub@),
{
    let cs = chars_of(line);
    let (x, y) = trim_range(&cs, 0, cs.len());
    proof {
        assert(cs@.subrange(0, cs.len() as int) =~= cs@);
    }
    if x == y {
        return AgentLine::Skip;
    }
    match split_at_char(&cs, x, y, '|') {
        Some(k) => {
            if range_eq(&cs, x, k, &chars_of("__AGENT_DONE__")) {
                let (ca, cb) = command_bounds(&cs, k + 1, y);
                if range_eq(&cs, ca, cb, &chars_of(sub)) {
                    let se = status_end(&cs, k + 1, y);
                    if range_eq(&cs, k + 1, se, &chars_of("ok")) {
                        return AgentLine::Done;
                    } else {
                        return AgentLine::Failed;
                    }
                }
            }
        },
        None => {},
    }
    AgentLine::Events(parse_backend_json_events(slice_of(line, x, y)))
}

/// The agent must be started again: none runs, it ended, or it runs in
/// the other mode.
pub open spec fn needs_restart(agent_debug: Option<bool>, alive: bool, debug: bool) -> bool {
    match agent_debug {
        Some(d) => d != debug || !alive,
        None => true,
    }
}

pub fn agent_needs_restart(agent_debug: Option<bool>, alive: bool, debug: bool) -> (r: bool)
    ensures
        r == needs_restart(agent_debug, alive, debug),
{
    match agent_debug {
        Some(d) => d != debug || !alive,
        None => true,
    }
}

/// The backend arguments that start the agent: a debug agent simulates.
pub open spec fn agent_args_spec(debug: bool) -> Seq<Seq<char>> {
    if debug {
        seq!["--dry-run"@, "--debug"@, "agent"@]
    } else {
        seq!["agent"@]
    }
}

pub fn agent_args(debug: bool) -> (v: Vec<String>)
    ensures
        v.deep_view() == agent_args_spec(debug),
{
    let mut v: Vec<String> = Vec::new();
    if debug {
        v.push(string_of("--dry-run"));
        v.push(string_of("--debug"));
    }
    v.push(string_of("agent"));
    proof {
        assert(v.deep_view() =~= agent_args_spec(debug));
    }
    v
}


// ---------------------------------------------------------------------------
// Third-party sources offered for reactivation
// ---------------------------------------------------------------------------

/// The order of texts by character codes, first difference first; on UTF-8
/// text it is the byte order in which `String` values compare.
pub open spec fn text_le(a: Seq<char>, b: Seq<char>) -> bool
    decreases a.len(),
{
    if a.len() == 0 {
        true
    } else if b.len() == 0 {
        false
    } else if a[0] != b[0] {
        (a[0] as int) < (b[0] as int)
    } else {
        text_le(a.drop_first(), b.drop_first())
    }
}

pub open spec fn sorted_texts(s: Seq<Seq<char>>) -> bool {
    forall|i: int, j: int| 0 <= i < j < s.len() ==> text_le(#[trigger] s[i], #[trigger] s[j])
}

pub proof fn lemma_text_le_total(a: Seq<char>, b: Seq<char>)
    ensures
        text_le(a, b) || text_le(b, a),
    decreases a.len(),
{
    if a.len() > 0 && b.len() > 0 && a[0] == b[0] {
        lemma_text_le_total(a.drop_first(), b.drop_first());
    }
}

pub proof fn lemma_text_le_trans(a: Seq<char>, b: Seq<char>, c: Seq<char>)
    requires
        text_le(a, b),
        text_le(b, c),
    ensures
        text_le(a, c),
    decreases a.len(),
{
    if a.len() > 0 && b.len() > 0 && c.len() > 0 && a[0] == b[0] && b[0] == c[0] {
        lemma_text_le_trans(a.drop_first(), b.drop_first(), c.drop_first());
    }
}

fn text_le_exec(a: &Vec<char>, b: &Vec<char>) -> (r: bool)
    ensures
        r == text_le(a@, b@),
{
    let mut i: usize = 0;
    proof {
        assert(a@.skip(0) =~= a@);
        assert(b@.skip(0) =~= b@);
    }
    while i < a.len() && i < b.len() && a[i] == b[i]
        invariant
            i <= a.len(),
            i <= b.len(),
            text_le(a@, b@) == text_le(a@.skip(i as int), b@.skip(i as int)),
        decreases a.len() - i,
    {
        proof {
            assert(a@.skip(i as int).drop_first() =~= a@.skip(i + 1));
            assert(b@.skip(i as int).drop_first() =~= b@.skip(i + 1));
        }
        i = i + 1;
    }
    if i == a.len() {
        true
    } else if i == b.len() {
        false
    } else {
        a[i] < b[i]
    }
}

/// Sorts texts in ascending order.
pub fn sort_texts(v: Vec<String>) -> (r: Vec<String>)
    ensures
        sorted_texts(r.deep_view()),
        r.deep_view().to_multiset() == v.deep_view().to_multiset(),
{
    let mut r: Vec<String> = Vec::new();
    let mut keys: Vec<Vec<char>> = Vec::new();
    let mut k: usize = 0;
    proof {
        assert(r.deep_view() =~= Seq::<Seq<char>>::empty());
        assert(v.deep_view().take(0) =~= Seq::<Seq<char>>::empty());
    }
    while k < v.len()
        invariant
            k <= v.len(),
            keys.len() == r.len(),
            forall|i: int| 0 <= i < keys.len() ==> (#[trigger] keys@[i])@ == r.deep_view()[i],
            sorted_texts(r.deep_view()),
            r.deep_view().to_multiset() == v.deep_view().take(k as int).to_multiset(),
        decreases v.len() - k,
    {
        let x = v[k].clone();
        let xk = chars_of(x.as_str());
        let mut p: usize = 0;
        while p < r.len() && text_le_exec(&keys[p], &xk)
            invariant
                p <= r.len(),
                keys.len() == r.len(),
                forall|i: int| 0 <= i < keys.len() ==> (#[trigger] keys@[i])@ == r.deep_view()[i],
                forall|i: int| 0 <= i < p ==> text_le(#[trigger] r.deep_view()[i], x@),
                xk@ == x@,
            decreases r.len() - p,
        {
            p = p + 1;
        }
        let ghost old_r = r.deep_view();
        proof {
            if p < r.len() {
                lemma_text_le_total(old_r[p as int], x@);
            }
            assert forall|i: int, j: int| 0 <= i < j < old_r.insert(p as int, x@).len() implies text_le(
                #[trigger] old_r.insert(p as int, x@)[i],
                #[trigger] old_r.insert(p as int, x@)[j],
            ) by {
                let s = old_r.insert(p as int, x@);
                if j < p {
                    assert(s[i] == old_r[i] && s[j] == old_r[j]);
                } else if j == p {
                    assert(s[i] == old_r[i]);
                } else if i == p {
                    assert(s[j] == old_r[j - 1]);
                    if j - 1 > p {
                        assert(text_le(old_r[p as int], old_r[j - 1]));
                        lemma_text_le_trans(x@, old_r[p as int], old_r[j - 1]);
                    }
                } else if i < p {
                    assert(s[i] == old_r[i] && s[j] == old_r[j - 1]);
                } else {
                    assert(s[i] == old_r[i - 1] && s[j] == old_r[j - 1]);
                }
            }
            vstd::seq_lib::to_multiset_insert(old_r, p as int, x@);
            vstd::seq_lib::to_multiset_build(v.deep_view().take(k as int), v.deep_view()[k as int]);
            assert(v.deep_view().take(k + 1) =~= v.deep_view().take(k as int).push(
                v.deep_view()[k as int],
            ));
        }
        r.insert(p, x);
        keys.insert(p, xk);
        proof {
            assert(r.deep_view() =~= old_r.insert(p as int, x@));
        }
        k = k + 1;
    }
    proof {
        assert(v.deep_view().take(v.len() as int) =~= v.deep_view());
    }
    r
}

/// The third-party sources of a listing of `/etc/apt/sources.list.d` that
/// the assistant offers for reactivation.
pub open spec fn candidate_names(es: Seq<DirEntryView>) -> Seq<Seq<char>>
    decreases es.len(),
{
    if es.len() == 0 {
        seq![]
    } else {
        let prev = candidate_names(es.drop_last());
        let e = es.last();
        if e.is_file && e.name is Some && is_offered_source(e.name->0) {
            prev.push(e.name->0)
        } else {
            prev
        }
    }
}

/// The third-party sources offered for reactivation, in name order.
pub fn third_party_names(entries: &Vec<DirEntry>) -> (r: Vec<String>)
    ensures
        sorted_texts(r.deep_view()),
        r.deep_view().to_multiset() == candidate_names(entries_view(entries@)).to_multiset(),
{
    let ghost es = entries_view(entries@);
    let mut names: Vec<String> = Vec::new();
    let mut k: usize = 0;
    proof {
        assert(names.deep_view() =~= candidate_names(es.take(0)));
    }
    while k < entries.len()
        invariant
            es == entries_view(entries@),
            k <= entries.len(),
            names.deep_view() == candidate_names(es.take(k as int)),
        decreases entries.len() - k,
    {
        proof {
            assert(es.take(k + 1).drop_last() =~= es.take(k as int));
            assert(es.take(k + 1).last() == entries@[k as int]@);
        }
        let e = &entries[k];
        if e.is_file {
            match &e.name {
                Some(n) => {
                    if offered_source(n.as_str()) {
                        let ghost before = names.deep_view();
                        names.push(n.clone());
                        proof {
                            assert(names.deep_view() =~= before.push(n@));
                        }
                    }
                },
                None => {},
            }
        }
        k = k + 1;
    }
    proof {
        assert(es.take(entries.len() as int) =~= es);
    }
    sort_texts(names)
}


// ---------------------------------------------------------------------------
// Small decisions of the assistant's screens
// ---------------------------------------------------------------------------

/// The text without the line feeds and carriage returns that end it.
pub open spec fn without_line_end(s: Seq<char>) -> Seq<char>
    decreases s.len(),
{
    if s.len() > 0 && (s.last() == '\n' || s.last() == '\r') {
        without_line_end(s.drop_last())
    } else {
        s
    }
}

/// A password as typed in a dialog, without the line end the dialog adds.
pub fn strip_line_endings(s: &str) -> (r: String)
    ensures
        r@ == without_line_end(s@),
{
    let cs = chars_of(s);
    let mut e: usize = cs.len();
    proof {
        assert(cs@.subrange(0, e as int) =~= cs@);
    }
    while e > 0 && (cs[e - 1] == '\n' || cs[e - 1] == '\r')
        invariant
            e <= cs.len(),
            cs@ == s@,
            without_line_end(cs@.subrange(0, e as int)) == without_line_end(s@),
        decreases e,
    {
        proof {
            assert(cs@.subrange(0, e as int).drop_last() =~= cs@.subrange(0, e - 1));
        }
        e = e - 1;
    }
    string_of(slice_of(s, 0, e))
}

/// An error text that suggests missing privileges.
pub open spec fn permission_problem(text: Seq<char>) -> bool {
    contains(text, "Permission denied"@) || contains(text, "permission denied"@) || contains(
        text,
        "apt-get"@,
    )
}

pub fn is_permission_error(text: &str) -> (r: bool)
    ensures
        r == permission_problem(text@),
{
    let cs = chars_of(text);
    contains_text(&cs, &chars_of("Permission denied")) || contains_text(
        &cs,
        &chars_of("permission denied"),
    ) || contains_text(&cs, &chars_of("apt-get"))
}

/// The assistant starts in debug mode when one argument is `--debug`.
pub open spec fn debug_flag(args: Seq<Seq<char>>) -> bool {
    exists|i: int| 0 <= i < args.len() && args[i] == "--debug"@
}

pub fn debug_requested(args: &Vec<String>) -> (r: bool)
    ensures
        r == debug_flag(args.deep_view()),
{
    let mut k: usize = 0;
    while k < args.len()
        invariant
            k <= args.len(),
            forall|i: int| 0 <= i < k ==> args.deep_view()[i] != "--debug"@,
        decreases args.len() - k,
    {
        if text_eq(args[k].as_str(), "--debug") {
            proof {
                assert(args.deep_view()[k as int] == "--debug"@);
            }
            return true;
        }
        k = k + 1;
    }
    false
}

/// `Path::join` of a relative name: a separator is added unless the base is
/// empty or already ends with one.
pub open spec fn path_join(base: Seq<char>, name: Seq<char>) -> Seq<char> {
    if base.len() == 0 {
        name
    } else if base.last() == '/' {
        base + name
    } else {
        base + "/"@ + name
    }
}

fn path_join_exec(base: &str, name: &str) -> (r: String)
    ensures
        r@ == path_join(base@, name@),
{
    let n = base.unicode_len();
    if n == 0 {
        string_of(name)
    } else if base.get_char(n - 1) == '/' {
        string_of(base).concat(name)
    } else {
        string_of(base).concat("/").concat(name)
    }
}

/// Where the session settings live: under `$XDG_CONFIG_HOME`, else under
/// `$HOME/.config`, else under `/tmp`.
pub open spec fn session_config_location(xdg: Option<Seq<char>>, home: Option<Seq<char>>) -> Seq<char> {
    let base = match xdg {
        Some(x) => x,
        None => match home {
            Some(h) => path_join(h, ".config"@),
            None => "/tmp"@,
        },
    };
    path_join(path_join(base, "debian-upgrade"@), "session.json"@)
}

pub fn session_config_path(xdg: Option<String>, home: Option<String>) -> (r: String)
    ensures
        r@ == session_config_location(opt_view(xdg), opt_view(home)),
{
    let base = match xdg {
        Some(x) => x,
        None => match home {
            Some(h) => path_join_exec(h.as_str(), ".config"),
            None => string_of("/tmp"),
        },
    };
    let dir = path_join_exec(base.as_str(), "debian-upgrade");
    path_join_exec(dir.as_str(), "session.json")
}

/// The agent command that records which third-party sources come back
/// after the upgrade.
pub open spec fn reactivation_text(selected: Seq<Seq<char>>) -> Seq<char> {
    if selected.len() == 0 {
        "set-third-party-reactivation"@
    } else {
        "set-third-party-reactivation "@ + join(selected, ","@)
    }
}

pub fn reactivation_command(selected: &Vec<String>) -> (r: String)
    ensures
        r@ == reactivation_text(selected.deep_view()),
{
    if selected.len() == 0 {
        string_of("set-third-party-reactivation")
    } else {
        string_of("set-third-party-reactivation ").concat(join_strings(selected, ",").as_str())
    }
}

/// The last page of the assistant.
pub const LAST_PAGE: i32 = 6;

/// The page after `p`, within the assistant's pages.
pub fn next_page(p: i32) -> (r: i32)
    ensures
        r == if p < LAST_PAGE { p + 1 } else { p as int },
{
    if p < LAST_PAGE {
        p + 1
    } else {
        p
    }
}

/// The page before `p`, not before the first one.
pub fn prev_page(p: i32) -> (r: i32)
    ensures
        r == if p > 1 { p - 1 } else { p as int },
{
    if p > 1 {
        p - 1
    } else {
        p
    }
}

/// What the assistant shows once a check of the release is over.
pub struct Screen {
    pub log: Vec<String>,
    pub header: String,
    pub tone: StatusTone,
    /// The page to show, when it changes.
    pub page: Option<i32>,
}

pub struct ScreenView {
    pub log: Seq<Seq<char>>,
    pub header: Seq<char>,
    pub tone: StatusTone,
    pub page: Option<i32>,
}

impl View for Screen {
    type V = ScreenView;

    open spec fn view(&self) -> ScreenView {
        ScreenView { log: self.log.deep_view(), header: self.header@, tone: self.tone, page: self.page }
    }
}

/// The log line on the third-party sources found.
pub open spec fn third_party_count_line(n: usize) -> Seq<char> {
    if n == 0 {
        "[info] Aucun depot tiers detecte dans /etc/apt/sources.list.d."@
    } else {
        "[info] "@ + decimal(n as nat)
            + " depot(s) tiers detecte(s). La liste est scrollable pour tout afficher."@
    }
}

/// The screen after the release check: a new release, or debug mode, go on
/// to the sources page; otherwise, or on failure, the last page.
pub open spec fn release_screen(outcome: OutcomeView, debug: bool, third_party: usize) -> ScreenView {
    match outcome {
        OutcomeView::Released(r) => if r.update_available {
            ScreenView {
                log: seq![
                    third_party_count_line(third_party),
                    "[success] Mise a niveau disponible: "@ + decimal(r.current_major as nat) + " -> "@
                        + decimal(r.stable_major as nat) + " ("@ + r.stable_codename + ")"@,
                ],
                header: "Nouvelle version detectee"@,
                tone: StatusTone::Success,
                page: Some(2),
            }
        } else if debug {
            ScreenView {
                log: seq![
                    third_party_count_line(third_party),
                    "[warn] Aucune nouvelle version detectee, mais mode debug actif: poursuite autorisee."@,
                ],
                header: "Mode debug: poursuite test"@,
                tone: StatusTone::Warn,
                page: Some(2),
            }
        } else {
            ScreenView {
                log: seq![
                    "[warn] Pas de nouvelle version: stable actuelle "@ + decimal(r.stable_major as nat)
                        + " ("@ + r.stable_codename + ")"@,
                ],
                header: "Aucune nouvelle version"@,
                tone: StatusTone::Warn,
                page: Some(6),
            }
        },
        OutcomeView::Failed(e) => ScreenView {
            log: seq!["[error] Echec verification en ligne: "@ + e.context],
            header: "Erreur verification version"@,
            tone: StatusTone::Error,
            page: Some(6),
        },
        _ => ScreenView {
            log: seq!["[error] Echec verification en ligne: "@ + crate::session::unexpected_reply()],
            header: "Erreur verification version"@,
            tone: StatusTone::Error,
            page: Some(6),
        },
    }
}

fn third_party_line(n: usize) -> (s: String)
    ensures
        s@ == third_party_count_line(n),
{
    if n == 0 {
        string_of("[info] Aucun depot tiers detecte dans /etc/apt/sources.list.d.")
    } else {
        string_of("[info] ").concat(decimal_string(n as u64).as_str()).concat(
            " depot(s) tiers detecte(s). La liste est scrollable pour tout afficher.",
        )
    }
}

pub(crate) fn two_lines(a: String, b: String) -> (v: Vec<String>)
    ensures
        v.deep_view() == seq![a@, b@],
{
    let mut v: Vec<String> = Vec::new();
    v.push(a);
    v.push(b);
    proof {
        assert(v.deep_view() =~= seq![a@, b@]);
    }
    v
}

pub(crate) fn one_line(a: String) -> (v: Vec<String>)
    ensures
        v.deep_view() == seq![a@],
{
    let mut v: Vec<String> = Vec::new();
    v.push(a);
    proof {
        assert(v.deep_view() =~= seq![a@]);
    }
    v
}

/// What to show once the release check of a session is over.
pub fn release_check_screen(outcome: &Outcome, debug: bool, third_party: usize) -> (s: Screen)
    ensures
        s@ == release_screen(outcome@, debug, third_party),
{
    match outcome {
        Outcome::Released(r) => {
            if r.update_available {
                let line = string_of("[success] Mise a niveau disponible: ").concat(
                    decimal_string(r.current_major as u64).as_str(),
                ).concat(" -> ").concat(decimal_string(r.stable_major as u64).as_str()).concat(
                    " (",
                ).concat(r.stable_codename.as_str()).concat(")");
                Screen {
                    log: two_lines(third_party_line(third_party), line),
                    header: string_of("Nouvelle version detectee"),
                    tone: StatusTone::Success,
                    page: Some(2),
                }
            } else if debug {
                Screen {
                    log: two_lines(
                        third_party_line(third_party),
                        string_of(
                            "[warn] Aucune nouvelle version detectee, mais mode debug actif: poursuite autorisee.",
                        ),
                    ),
                    header: string_of("Mode debug: poursuite test"),
                    tone: StatusTone::Warn,
                    page: Some(2),
                }
            } else {
                let line = string_of("[warn] Pas de nouvelle version: stable actuelle ").concat(
                    decimal_string(r.stable_major as u64).as_str(),
                ).concat(" (").concat(r.stable_codename.as_str()).concat(")");
                Screen {
                    log: one_line(line),
                    header: string_of("Aucune nouvelle version"),
                    tone: StatusTone::Warn,
                    page: Some(6),
                }
            }
        },
        Outcome::Failed(e) => Screen {
            log: one_line(
                string_of("[error] Echec verification en ligne: ").concat(e.context.as_str()),
            ),
            header: string_of("Erreur verification version"),
            tone: StatusTone::Error,
            page: Some(6),
        },
        _ => Screen {
            log: one_line(
                string_of("[error] Echec verification en ligne: ").concat(
                    "reponse inattendue du systeme",
                ),
            ),
            header: string_of("Erreur verification version"),
            tone: StatusTone::Error,
            page: Some(6),
        },
    }
}


/// The package steps run from the assistant.
#[derive(Clone, Copy, Debug, PartialEq, Eq, Structural)]
pub enum PackageStep {
    PreparePackages,
    DryRunUpgrade,
}

/// A failed package step is tried again with elevated rights when its
/// error suggests missing privileges, outside debug mode.
pub open spec fn privileged_retry(outcome: OutcomeView, debug: bool) -> bool {
    outcome matches OutcomeView::Failed(e) && permission_problem(e.context) && !debug
}

pub fn needs_privileged_retry(outcome: &Outcome, debug: bool) -> (b: bool)
    ensures
        b == privileged_retry(outcome@, debug),
{
    match outcome {
        Outcome::Failed(e) => is_permission_error(e.context.as_str()) && !debug,
        _ => false,
    }
}

/// What the assistant shows once a package step is over.
pub open spec fn package_screen(outcome: OutcomeView, debug: bool, step: PackageStep) -> ScreenView {
    let dry = step == PackageStep::DryRunUpgrade;
    match outcome {
        OutcomeView::Failed(e) => if privileged_retry(outcome, debug) {
            ScreenView {
                log: seq![
                    "[warn] Permissions insuffisantes detectees, tentative avec elevation privilegiee..."@,
                ],
                header: if dry {
                    "Elevation privilegiee..."@
                } else {
                    "Preparation des paquets en cours..."@
                },
                tone: StatusTone::Running,
                page: None,
            }
        } else {
            ScreenView {
                log: seq![
                    if dry {
                        "[error] Echec dry-run upgrade: "@ + e.context
                    } else {
                        "[error] Echec preparation paquets: "@ + e.context
                    },
                ],
                header: if dry {
                    "Erreur dry-run"@
                } else {
                    "Erreur preparation paquets"@
                },
                tone: StatusTone::Error,
                page: None,
            }
        },
        _ => if dry {
            ScreenView {
                log: seq!["[success] Dry-run upgrade valide: aucune erreur bloquante detectee."@],
                header: "Dry-run valide"@,
                tone: StatusTone::Success,
                page: Some(5),
            }
        } else {
            ScreenView {
                log: seq!["[success] Preparation des paquets terminee."@],
                header: "Preparation paquets terminee"@,
                tone: StatusTone::Success,
                page: Some(4),
            }
        },
    }
}

pub fn package_step_screen(outcome: &Outcome, debug: bool, step: PackageStep) -> (s: Screen)
    ensures
        s@ == package_screen(outcome@, debug, step),
{
    let dry = step == PackageStep::DryRunUpgrade;
    match outcome {
        Outcome::Failed(e) => {
            if needs_privileged_retry(outcome, debug) {
                Screen {
                    log: one_line(
                        string_of(
                            "[warn] Permissions insuffisantes detectees, tentative avec elevation privilegiee...",
                        ),
                    ),
                    header: if dry {
                        string_of("Elevation privilegiee...")
                    } else {
                        string_of("Preparation des paquets en cours...")
                    },
                    tone: StatusTone::Running,
                    page: None,
                }
            } else {
                let line = if dry {
                    string_of("[error] Echec dry-run upgrade: ").concat(e.context.as_str())
                } else {
                    string_of("[error] Echec preparation paquets: ").concat(e.context.as_str())
                };
                Screen {
                    log: one_line(line),
                    header: if dry {
                        string_of("Erreur dry-run")
                    } else {
                        string_of("Erreur preparation paquets")
                    },
                    tone: StatusTone::Error,
                    page: None,
                }
            }
        },
        _ => {
            if dry {
                Screen {
                    log: one_line(
                        string_of("[success] Dry-run upgrade valide: aucune erreur bloquante detectee."),
                    ),
                    header: string_of("Dry-run valide"),
                    tone: StatusTone::Success,
                    page: Some(5),
                }
            } else {
                Screen {
                    log: one_line(string_of("[success] Preparation des paquets terminee.")),
                    header: string_of("Preparation paquets terminee"),
                    tone: StatusTone::Success,
                    page: Some(4),
                }
            }
        },
    }
}

// ---------------------------------------------------------------------------
// Laws
// ---------------------------------------------------------------------------

/// The log pane never keeps more than `MAX_LOG_LINES` lines.
pub proof fn law_log_is_bounded(v: LogViewModel, lines: Seq<Seq<char>>, has_focus: bool)
    requires
        v.ring.len() <= MAX_LOG_LINES,
    ensures
        append_spec(v, lines, has_focus).0.ring.len() <= MAX_LOG_LINES,
{
}

/// Lines that arrive while the reader has the log in focus are not lost:
/// they are shown, in order, with the next lines that arrive out of focus.
pub proof fn law_focus_loses_no_line(v: LogViewModel, held: Seq<Seq<char>>, next: Seq<Seq<char>>)
    requires
        next.len() > 0,
    ensures
        append_spec(append_spec(v, held, true).0, next, false) == append_spec(v, held + next, false),
{
    if held.len() == 0 {
        assert(held + next =~= next);
    } else {
        assert(v.ring + (v.deferred + held) + next =~= v.ring + v.deferred + (held + next));
    }
}

/// The lines of a run of batches, in order.
pub open spec fn batch_lines(batches: Seq<(Seq<Seq<char>>, bool)>) -> Seq<Seq<char>>
    decreases batches.len(),
{
    if batches.len() == 0 {
        seq![]
    } else {
        batches[0].0 + batch_lines(batches.drop_first())
    }
}

/// The pane once each batch of lines was appended in turn, with the focus
/// that the reader had at that moment.
pub open spec fn append_batches(v: LogViewModel, batches: Seq<(Seq<Seq<char>>, bool)>) -> LogViewModel
    decreases batches.len(),
{
    if batches.len() == 0 {
        v
    } else {
        append_batches(append_spec(v, batches[0].0, batches[0].1).0, batches.drop_first())
    }
}

proof fn lemma_latest_of_latest(a: Seq<Seq<char>>, x: Seq<Seq<char>>, n: nat)
    ensures
        latest(latest(a, n) + x, n) == latest(a + x, n),
{
    if a.len() > n {
        let l = latest(a, n);
        assert(l.len() == n);
        let lhs = latest(l + x, n);
        let rhs = latest(a + x, n);
        assert(lhs.len() == rhs.len());
        assert forall|i: int| 0 <= i < lhs.len() implies lhs[i] == rhs[i] by {
            let j = (l + x).len() - n + i;
            let k = (a + x).len() - n + i;
            if j < l.len() {
                assert((l + x)[j] == l[j]);
                assert(l[j] == a[a.len() - n + j]);
                assert((a + x)[k] == a[k]);
            } else {
                assert((l + x)[j] == x[j - l.len()]);
                assert((a + x)[k] == x[k - a.len()]);
            }
        }
        assert(lhs =~= rhs);
    }
}

/// Whatever batches arrive and whatever the focus, the pane holds back
/// exactly the lines that came last while the log had focus, and keeps
/// exactly the latest `MAX_LOG_LINES` of all the others, those held back
/// before coming first: of every line shown since it was empty, for a
/// pane that starts empty.
pub proof fn law_log_keeps_the_latest_lines(v: LogViewModel, batches: Seq<(Seq<Seq<char>>, bool)>)
    requires
        v.ring.len() <= MAX_LOG_LINES,
    ensures
        ({
            let all = v.ring + v.deferred + batch_lines(batches);
            let w = append_batches(v, batches);
            let shown = all.len() - w.deferred.len();
            &&& w.deferred.len() <= v.deferred.len() + batch_lines(batches).len()
            &&& w.deferred == all.skip(shown)
            &&& w.ring == latest(all.take(shown), MAX_LOG_LINES as nat)
        }),
    decreases batches.len(),
{
    let all = v.ring + v.deferred + batch_lines(batches);
    if batches.len() == 0 {
        assert(all.skip(all.len() - v.deferred.len()) =~= v.deferred);
        assert(all.take(all.len() - v.deferred.len()) =~= v.ring);
    } else {
        let b0 = batches[0].0;
        let rest = batches.drop_first();
        let r = batch_lines(rest);
        let v1 = append_spec(v, b0, batches[0].1).0;
        law_log_is_bounded(v, b0, batches[0].1);
        law_log_keeps_the_latest_lines(v1, rest);
        let w = append_batches(v1, rest);
        let all1 = v1.ring + v1.deferred + r;
        let d = w.deferred.len() as int;
        if b0.len() == 0 || batches[0].1 {
            assert(all1 =~= all);
        } else {
            let p = v.ring + v.deferred + b0;
            let l = latest(p, MAX_LOG_LINES as nat);
            assert(v1.deferred.len() == 0);
            assert(all1 =~= l + r);
            assert(all =~= p + r);
            assert(all1.skip(all1.len() - d) =~= r.skip(r.len() - d));
            assert(all.skip(all.len() - d) =~= r.skip(r.len() - d));
            assert(all1.take(all1.len() - d) =~= l + r.take(r.len() - d));
            assert(all.take(all.len() - d) =~= p + r.take(r.len() - d));
            lemma_latest_of_latest(p, r.take(r.len() - d), MAX_LOG_LINES as nat);
        }
    }
}

/// A line of the agent that ends another command than the running one is
/// not taken for the end of the running command.
pub proof fn law_other_command_end_is_shown(
    line: Seq<char>,
    status: Seq<char>,
    other: Seq<char>,
    sub: Seq<char>,
)
    requires
        trim(line) == agent_done_prefix() + "|"@ + status + "|"@ + other,
        other != sub,
        !other.contains('|'),
        !status.contains('|'),
    ensures
        agent_line_spec(line, sub) is Events,
{
    let l = agent_done_prefix() + "|"@ + status + "|"@ + other;
    let tail = status + "|"@ + other;
    reveal_strlit("__AGENT_DONE__");
    reveal_strlit("|");
    assert(trim(line) == l);
    lemma_first_index_bounds(l, '|');
    assert(l[14] == '|');
    assert forall|i: int| 0 <= i < 14 implies l[i] != '|' by {
        assert(l[i] == agent_done_prefix()[i]);
    }
    crate::text::lemma_first_index_is(l, '|', 14);
    assert(l.take(14) =~= agent_done_prefix());
    assert(l.skip(15) =~= tail);
    assert forall|i: int| 0 <= i < status.len() implies tail[i] != '|' by {
        assert(tail[i] == status[i]);
    }
    crate::text::lemma_first_index_is(tail, '|', status.len() as int);
    assert(tail.skip(status.len() as int + 1) =~= other);
    assert forall|i: int| 0 <= i < other.len() implies other[i] != '|' by {
        assert(other.contains(other[i]));
    }
    crate::text::lemma_first_index_is(other, '|', other.len() as int);
}

} // verus!
