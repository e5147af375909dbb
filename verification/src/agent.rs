//! Driving the privileged agent through a list of backend subcommands: each
//! is written on the agent's input, then the agent's output is read line
//! after line until it reports the end of that subcommand.  The program
//! around the driver does the writing and reading, and hands back what
//! came of it.
use vstd::prelude::*;
use crate::text::string_of;
use crate::ui::{
    AgentLine, AgentLineView, UiEvent, UiEventView, agent_line_spec, classify_agent_line,
    ui_events_view,
};

verus! {

/// What the driver asks of the program around it.
pub enum AgentRequest {
    /// Write this line on the agent's input, then flush it.
    Write(String),
    /// Read the next line of the agent's output.
    ReadLine,
    /// Every subcommand ended well.
    Finish,
    /// The run stops with this error.
    Fail(String),
}

pub enum AgentRequestView {
    Write(Seq<char>),
    ReadLine,
    Finish,
    Fail(Seq<char>),
}

impl View for AgentRequest {
    type V = AgentRequestView;

    open spec fn view(&self) -> AgentRequestView {
        match self {
            AgentRequest::Write(l) => AgentRequestView::Write(l@),
            AgentRequest::ReadLine => AgentRequestView::ReadLine,
            AgentRequest::Finish => AgentRequestView::Finish,
            AgentRequest::Fail(e) => AgentRequestView::Fail(e@),
        }
    }
}

/// What came of the last request.
pub enum AgentReply {
    /// The line was written and flushed.
    Written,
    /// Writing failed, with the system's account of it.
    WriteFailed(String),
    /// Flushing failed, with the system's account of it.
    FlushFailed(String),
    /// A line was read, with its line end if it had one.
    Line(String),
    /// Reading failed, with the system's account of it.
    ReadFailed(String),
    /// The agent's output ended.
    Closed,
}

pub enum AgentReplyView {
    Written,
    WriteFailed(Seq<char>),
    FlushFailed(Seq<char>),
    Line(Seq<char>),
    ReadFailed(Seq<char>),
    Closed,
}

impl View for AgentReply {
    type V = AgentReplyView;

    open spec fn view(&self) -> AgentReplyView {
        match self {
            AgentReply::Written => AgentReplyView::Written,
            AgentReply::WriteFailed(e) => AgentReplyView::WriteFailed(e@),
            AgentReply::FlushFailed(e) => AgentReplyView::FlushFailed(e@),
            AgentReply::Line(l) => AgentReplyView::Line(l@),
            AgentReply::ReadFailed(e) => AgentReplyView::ReadFailed(e@),
            AgentReply::Closed => AgentReplyView::Closed,
        }
    }
}

/// What the driver waits for.
#[derive(Clone, Copy, Debug, PartialEq, Eq, Structural)]
pub enum AgentPhase {
    /// The current subcommand is being written.
    Writing,
    /// The output of the current subcommand is being read.
    Reading,
    /// The run is over.
    Over,
}

/// A run of subcommands through the agent.
pub struct AgentRun {
    subs: Vec<String>,
    index: usize,
    phase: AgentPhase,
    error: Option<String>,
}

pub struct AgentRunView {
    pub subs: Seq<Seq<char>>,
    pub index: nat,
    pub phase: AgentPhase,
    pub error: Option<Seq<char>>,
}

impl View for AgentRun {
    type V = AgentRunView;

    closed spec fn view(&self) -> AgentRunView {
        AgentRunView {
            subs: self.subs.deep_view(),
            index: self.index as nat,
            phase: self.phase,
            error: match self.error {
                Some(e) => Some(e@),
                None => None,
            },
        }
    }
}

/// The events to show and the next request.
pub struct AgentStep {
    pub events: Vec<UiEvent>,
    pub request: AgentRequest,
}

pub struct AgentStepView {
    pub events: Seq<UiEventView>,
    pub request: AgentRequestView,
}

impl View for AgentStep {
    type V = AgentStepView;

    open spec fn view(&self) -> AgentStepView {
        AgentStepView { events: ui_events_view(self.events@), request: self.request@ }
    }
}

/// A run in which the subcommand being handled exists, and which ended
/// well only once every subcommand was done.
pub open spec fn agent_run_wf(v: AgentRunView) -> bool {
    &&& v.index <= v.subs.len()
    &&& v.phase != AgentPhase::Over ==> v.index < v.subs.len()
    &&& v.phase == AgentPhase::Over && v.error is None ==> v.index == v.subs.len()
}

pub open spec fn agent_step(events: Seq<UiEventView>, request: AgentRequestView) -> AgentStepView {
    AgentStepView { events, request }
}

/// Moves to the subcommand at `i`: writes it, or ends the run well when
/// there is none left.
pub open spec fn agent_next(v: AgentRunView, i: nat, events: Seq<UiEventView>) -> (AgentRunView, AgentStepView) {
    if i < v.subs.len() {
        (
            AgentRunView { index: i, phase: AgentPhase::Writing, ..v },
            agent_step(events, AgentRequestView::Write(v.subs[i as int] + "\n"@)),
        )
    } else {
        (
            AgentRunView { index: v.subs.len(), phase: AgentPhase::Over, error: None, ..v },
            agent_step(events, AgentRequestView::Finish),
        )
    }
}

/// The run stops with `message`.
pub open spec fn agent_stop(v: AgentRunView, message: Seq<char>) -> (AgentRunView, AgentStepView) {
    (
        AgentRunView { phase: AgentPhase::Over, error: Some(message), ..v },
        agent_step(seq![], AgentRequestView::Fail(message)),
    )
}

/// How the run starts on `subs`.
pub open spec fn agent_start_spec(subs: Seq<Seq<char>>) -> (AgentRunView, AgentStepView) {
    agent_next(AgentRunView { subs, index: 0, phase: AgentPhase::Writing, error: None }, 0, seq![])
}

/// A failed operation on the agent, for the subcommand `sub`.
pub open spec fn agent_io_error(op: Seq<char>, sub: Seq<char>, detail: Seq<char>) -> Seq<char> {
    "agent "@ + op + " echec ("@ + sub + "): "@ + detail
}

pub open spec fn agent_closed_error(sub: Seq<char>) -> Seq<char> {
    "agent termine de maniere inattendue ("@ + sub + ")"@
}

pub open spec fn agent_failed_error(sub: Seq<char>) -> Seq<char> {
    "commande agent en echec: "@ + sub
}

pub open spec fn agent_unexpected_error(sub: Seq<char>) -> Seq<char> {
    "reponse inattendue du systeme ("@ + sub + ")"@
}

/// The driver's answer to `r`: its next state, the events to show, and its
/// next request.
pub open spec fn agent_step_spec(v: AgentRunView, r: AgentReplyView) -> (AgentRunView, AgentStepView) {
    let sub = v.subs[v.index as int];
    match v.phase {
        AgentPhase::Over => (
            v,
            agent_step(
                seq![],
                match v.error {
                    Some(e) => AgentRequestView::Fail(e),
                    None => AgentRequestView::Finish,
                },
            ),
        ),
        AgentPhase::Writing => match r {
            AgentReplyView::Written => (
                AgentRunView { phase: AgentPhase::Reading, ..v },
                agent_step(seq![], AgentRequestView::ReadLine),
            ),
            AgentReplyView::WriteFailed(e) => agent_stop(v, agent_io_error("write"@, sub, e)),
            AgentReplyView::FlushFailed(e) => agent_stop(v, agent_io_error("flush"@, sub, e)),
            _ => agent_stop(v, agent_unexpected_error(sub)),
        },
        AgentPhase::Reading => match r {
            AgentReplyView::Line(l) => match agent_line_spec(l, sub) {
                AgentLineView::Skip => (v, agent_step(seq![], AgentRequestView::ReadLine)),
                AgentLineView::Events(es) => (v, agent_step(es, AgentRequestView::ReadLine)),
                AgentLineView::Done => agent_next(v, v.index + 1, seq![]),
                AgentLineView::Failed => agent_stop(v, agent_failed_error(sub)),
            },
            AgentReplyView::ReadFailed(e) => agent_stop(v, agent_io_error("read"@, sub, e)),
            AgentReplyView::Closed => agent_stop(v, agent_closed_error(sub)),
            _ => agent_stop(v, agent_unexpected_error(sub)),
        },
    }
}

fn io_error(op: &str, sub: &str, detail: &str) -> (r: String)
    ensures
        r@ == agent_io_error(op@, sub@, detail@),
{
    let mut r = string_of("agent ");
    r.append(op);
    r.append(" echec (");
    r.append(sub);
    r.append("): ");
    r.append(detail);
    r
}

impl AgentRun {
    pub open spec fn wf(&self) -> bool {
        agent_run_wf(self@)
    }

    /// Starts a run of `subs`: the first request writes the first one.
    pub fn start(subs: Vec<String>) -> (r: (AgentRun, AgentStep))
        ensures
            r.0.wf(),
            (r.0@, r.1@) == agent_start_spec(subs.deep_view()),
    {
        let mut run = AgentRun { subs, index: 0, phase: AgentPhase::Writing, error: None };
        let empty: Vec<UiEvent> = Vec::new();
        proof {
            assert(ui_events_view(empty@) =~= Seq::<UiEventView>::empty());
        }
        let s = run.next(0, empty);
        (run, s)
    }

    fn next(&mut self, i: usize, events: Vec<UiEvent>) -> (s: AgentStep)
        requires
            i <= old(self).subs.len(),
        ensures
            final(self).wf(),
            (final(self)@, s@) == agent_next(old(self)@, i as nat, ui_events_view(events@)),
    {
        if i < self.subs.len() {
            let mut line = string_of(self.subs[i].as_str());
            line.append("\n");
            self.index = i;
            self.phase = AgentPhase::Writing;
            proof {
                assert(self.subs.deep_view()[i as int] == self.subs@[i as int]@);
            }
            AgentStep { events, request: AgentRequest::Write(line) }
        } else {
            self.index = self.subs.len();
            self.phase = AgentPhase::Over;
            self.error = None;
            AgentStep { events, request: AgentRequest::Finish }
        }
    }

    fn stop(&mut self, message: String) -> (s: AgentStep)
        requires
            old(self).wf(),
        ensures
            final(self).wf(),
            (final(self)@, s@) == agent_stop(old(self)@, message@),
    {
        let m = message.clone();
        self.phase = AgentPhase::Over;
        self.error = Some(message);
        let s = AgentStep { events: Vec::new(), request: AgentRequest::Fail(m) };
        proof {
            assert(s@.events =~= Seq::<UiEventView>::empty());
        }
        s
    }

    /// Takes what came of the last request and gives the events to show and
    /// the next request.
    pub fn step(&mut self, reply: AgentReply) -> (s: AgentStep)
        requires
            old(self).wf(),
        ensures
            final(self).wf(),
            (final(self)@, s@) == agent_step_spec(old(self)@, reply@),
    {
        let empty: Vec<UiEvent> = Vec::new();
        proof {
            assert(ui_events_view(empty@) =~= Seq::<UiEventView>::empty());
            assert(self.subs.deep_view().len() == self.subs@.len());
        }
        match self.phase {
            AgentPhase::Over => {
                let request = match &self.error {
                    Some(e) => AgentRequest::Fail(e.clone()),
                    None => AgentRequest::Finish,
                };
                AgentStep { events: empty, request }
            },
            AgentPhase::Writing => {
                let sub = self.subs[self.index].clone();
                proof {
                    assert(self.subs.deep_view()[self.index as int] == self.subs@[self.index as int]@);
                }
                match reply {
                    AgentReply::Written => {
                        self.phase = AgentPhase::Reading;
                        AgentStep { events: empty, request: AgentRequest::ReadLine }
                    },
                    AgentReply::WriteFailed(e) => self.stop(io_error("write", sub.as_str(), e.as_str())),
                    AgentReply::FlushFailed(e) => self.stop(io_error("flush", sub.as_str(), e.as_str())),
                    _ => {
                        let mut m = string_of("reponse inattendue du systeme (");
                        m.append(sub.as_str());
                        m.append(")");
                        self.stop(m)
                    },
                }
            },
            AgentPhase::Reading => {
                proof {
                    assert(self@.index < self@.subs.len());
                    assert(self.index < self.subs.len());
                }
                let sub = self.subs[self.index].clone();
                proof {
                    assert(self.subs.deep_view()[self.index as int] == self.subs@[self.index as int]@);
                }
                match reply {
                    AgentReply::Line(l) => match classify_agent_line(l.as_str(), sub.as_str()) {
                        AgentLine::Skip => AgentStep { events: empty, request: AgentRequest::ReadLine },
                        AgentLine::Events(es) => AgentStep { events: es, request: AgentRequest::ReadLine },
                        AgentLine::Done => {
                            let i = self.index + 1;
                            self.next(i, empty)
                        },
                        AgentLine::Failed => {
                            let mut m = string_of("commande agent en echec: ");
                            m.append(sub.as_str());
                            self.stop(m)
                        },
                    },
                    AgentReply::ReadFailed(e) => self.stop(io_error("read", sub.as_str(), e.as_str())),
                    AgentReply::Closed => {
                        let mut m = string_of("agent termine de maniere inattendue (");
                        m.append(sub.as_str());
                        m.append(")");
                        self.stop(m)
                    },
                    _ => {
                        let mut m = string_of("reponse inattendue du systeme (");
                        m.append(sub.as_str());
                        m.append(")");
                        self.stop(m)
                    },
                }
            },
        }
    }
}

/// Once a run is over it stays over: every later reply leaves it as it is,
/// shows nothing, and is answered with the same end.
pub proof fn law_agent_end_is_final(v: AgentRunView, r: AgentReplyView)
    requires
        agent_run_wf(v),
    ensures
        agent_step_spec(v, r).0.phase == AgentPhase::Over ==> agent_step_spec(
            agent_step_spec(v, r).0,
            r,
        ).0 == agent_step_spec(v, r).0 && agent_step_spec(agent_step_spec(v, r).0, r).1
            == agent_step_spec(v, r).1,
{
}

/// A run ends well only once the agent reported the end of every
/// subcommand, and each subcommand is written only after the one before it
/// ended well.
pub proof fn law_agent_runs_subcommands_in_order(v: AgentRunView, r: AgentReplyView)
    requires
        agent_run_wf(v),
    ensures
        agent_step_spec(v, r).1.request is Finish ==> agent_step_spec(v, r).0.index == v.subs.len()
            && agent_step_spec(v, r).0.error is None,
        agent_step_spec(v, r).1.request is Write ==> v.phase == AgentPhase::Reading
            && agent_step_spec(v, r).0.index == v.index + 1 && r is Line && agent_line_spec(
            r->Line_0,
            v.subs[v.index as int],
        ) is Done,
{
}

} // verus!
