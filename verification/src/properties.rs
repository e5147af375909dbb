//! What every session keeps, step after step: its context, no change to
//! the system in dry-run mode, debug events only in debug mode, a final
//! `Finish` once it is over, and release results that agree with the
//! versions they report; how the full pipeline, postponing and failures
//! end a session; and that dry-run mode reports what a real run changes.
use vstd::prelude::*;
use crate::model::{AppContext, Command, DeferPeriod, EventView, LogLevel};
use crate::protocol::{ActionView, OutcomeView, ReplyView, RequestView, modifies_system};
use crate::session::{
    Phase, SessionView, act, advance, begin, debug_events, defer_events, initial_view,
    job_dry_run_event, job_start_events, on_cmd_wait, on_rel_testing, on_sch_sleep,
    on_src_list_exists, on_src_list_read, on_src_list_write, on_src_os, on_src_rename,
    on_tp_append, on_tp_list, on_tp_read, on_tp_write, run_all_stopped, run_step_start,
    schedule_done_events, step_spec, tp_finalize, tp_scan, third_party_summary, file_disabled,
    release_verdict, published_release_message, run_all_bypass, deb822_migrated, list_migrated,
    job_success_event, run_all_banner,
};
use crate::third_party::{list_disable_spec, sources_disable_spec, is_deb822_name};
use crate::sources::{rewrite_deb822_spec, rewrite_list_spec};
use crate::release::{os_release_spec, release_fields};
use crate::text::{contains, is_word, lines, starts_with};
use crate::sources::{fresh_target, law_deb822_rewrite_is_idempotent, law_list_rewrite_is_idempotent};
use crate::release::first_codename;
use crate::model::StepState;
use crate::model::ev;
use crate::third_party::{
    cr_lines_stay_inactive, law_list_second_run_changes_nothing, law_sources_second_run_changes_nothing,
};

verus! {

/// Phases in which the session waits on a change it asked of the system.
pub open spec fn changing_phase(p: Phase) -> bool {
    match p {
        Phase::SrcDeb822Write | Phase::SrcRename | Phase::SrcListWrite | Phase::TpWrite
        | Phase::TpDir | Phase::TpAppend | Phase::CmdRun | Phase::CmdWait => true,
        _ => false,
    }
}

/// None of the events is a debug event.
pub open spec fn no_debug_events(s: Seq<EventView>) -> bool {
    forall|i: int| 0 <= i < s.len() ==> #[trigger] s[i].level != LogLevel::Debug
}

/// What holds of every state a session reaches.
pub open spec fn session_inv(v: SessionView) -> bool {
    &&& v.ctx.dry_run ==> !changing_phase(v.phase)
    &&& v.phase == Phase::Done ==> !(v.outcome is Running)
}

/// A release result says that an upgrade is available exactly when the
/// stable major version is above the local one.
pub open spec fn release_ok(r: crate::model::ReleaseCheckView) -> bool {
    r.update_available == (r.stable_major > r.current_major)
}

/// Every release result the session holds or reports is consistent.
pub open spec fn releases_ok(v: SessionView) -> bool {
    &&& v.release matches Some(r) ==> release_ok(r)
    &&& v.outcome matches OutcomeView::Released(r) ==> release_ok(r)
}

/// What a transition from `v`, with `events` gathered before it, keeps.
pub open spec fn keeps(v: SessionView, events: Seq<EventView>, out: (SessionView, ActionView)) -> bool {
    &&& out.0.ctx == v.ctx
    &&& releases_ok(v) ==> releases_ok(out.0)
    &&& session_inv(out.0)
    &&& v.ctx.dry_run ==> !modifies_system(out.1.request)
    &&& (out.1.request is Finish <==> out.0.phase == Phase::Done)
    &&& (!v.ctx.debug && no_debug_events(events)) ==> no_debug_events(out.1.events)
}

proof fn lemma_no_debug_concat(a: Seq<EventView>, b: Seq<EventView>)
    requires
        no_debug_events(a),
        no_debug_events(b),
    ensures
        no_debug_events(a + b),
{
    assert forall|i: int| 0 <= i < (a + b).len() implies #[trigger] (a + b)[i].level
        != LogLevel::Debug by {
        if i < a.len() {
            assert((a + b)[i] == a[i]);
        } else {
            assert((a + b)[i] == b[i - a.len()]);
        }
    }
}

proof fn lemma_no_debug_push(a: Seq<EventView>, e: EventView)
    requires
        no_debug_events(a),
        e.level != LogLevel::Debug,
    ensures
        no_debug_events(a.push(e)),
{
    assert forall|i: int| 0 <= i < a.push(e).len() implies #[trigger] a.push(e)[i].level
        != LogLevel::Debug by {
        if i < a.len() {
            assert(a.push(e)[i] == a[i]);
        }
    }
}

proof fn lemma_no_debug_start(ctx: AppContext, step: Seq<char>, d: Seq<char>, planned: Seq<Seq<char>>)
    requires
        !ctx.debug,
    ensures
        no_debug_events(run_step_start(ctx, step, d, planned)),
{
    let s = run_step_start(ctx, step, d, planned);
    assert(s.len() == 1);
    assert(s[0].level == LogLevel::Info);
}

proof fn lemma_no_debug_job_start(ctx: AppContext, job: crate::session::Job)
    requires
        !ctx.debug,
    ensures
        no_debug_events(job_start_events(ctx, job)),
{
    let s = job_start_events(ctx, job);
    assert(debug_events(ctx, seq![], seq![]).len() == 0);
    assert forall|i: int| 0 <= i < s.len() implies #[trigger] s[i].level != LogLevel::Debug by {
        assert(i == 0);
    }
}

proof fn lemma_no_debug_defer(ctx: AppContext, p: DeferPeriod)
    requires
        !ctx.debug,
    ensures
        no_debug_events(defer_events(ctx, p)),
{
    let s = defer_events(ctx, p);
    assert(s.len() == 1);
    assert(s[0].level != LogLevel::Debug);
}

proof fn lemma_no_debug_schedule(ctx: AppContext)
    requires
        !ctx.debug,
    ensures
        no_debug_events(schedule_done_events(ctx)),
{
    let s = schedule_done_events(ctx);
    assert forall|i: int| 0 <= i < s.len() implies #[trigger] s[i].level != LogLevel::Debug by {
        assert(i <= 1);
    }
}

proof fn lemma_advance(v: SessionView, events: Seq<EventView>)
    ensures
        keeps(v, events, advance(v, events)),
    decreases v.jobs.len(), 0nat,
{
    if v.jobs.len() == 0 {
        if !v.ctx.debug && no_debug_events(events) && v.run_all {
            lemma_no_debug_push(events, crate::session::run_all_done());
            assert(events + seq![crate::session::run_all_done()] =~= events.push(
                crate::session::run_all_done(),
            ));
        }
        if !v.run_all {
            assert(events + Seq::<EventView>::empty() =~= events);
        }
    } else {
        lemma_begin(SessionView { jobs: v.jobs.drop_first(), ..v }, v.jobs[0], events);
    }
}

proof fn lemma_begin(v: SessionView, job: crate::session::Job, events: Seq<EventView>)
    ensures
        keeps(v, events, begin(v, job, events)),
    decreases v.jobs.len(), 1nat,
{
    let v1 = SessionView { job, ..v };
    match job {
        crate::session::Job::CheckRelease => {
            if !v.ctx.debug && no_debug_events(events) {
                lemma_no_debug_push(events, crate::session::release_running_event());
            }
        },
        crate::session::Job::DisableThirdParty => {
            if !v.ctx.debug && no_debug_events(events) {
                lemma_no_debug_push(events, crate::session::third_party_running_event());
            }
        },
        crate::session::Job::PreparePackages | crate::session::Job::DryRunUpgrade => {
            let evs = events + job_start_events(v.ctx, job);
            if !v.ctx.debug && no_debug_events(events) {
                lemma_no_debug_job_start(v.ctx, job);
                lemma_no_debug_concat(events, job_start_events(v.ctx, job));
                lemma_no_debug_push(evs, job_dry_run_event(job));
            }
            if v.ctx.dry_run {
                lemma_advance(v1, evs.push(job_dry_run_event(job)));
            }
        },
        crate::session::Job::Schedule => {
            if !v.ctx.debug && no_debug_events(events) {
                lemma_no_debug_start(
                    v.ctx,
                    "schedule-offline-upgrade"@,
                    "Planification de la mise à niveau hors-ligne au reboot..."@,
                    crate::session::schedule_planned(),
                );
                lemma_no_debug_concat(
                    events,
                    run_step_start(
                        v.ctx,
                        "schedule-offline-upgrade"@,
                        "Planification de la mise à niveau hors-ligne au reboot..."@,
                        crate::session::schedule_planned(),
                    ),
                );
            }
        },
        crate::session::Job::Defer { period } => {
            if !v.ctx.debug && no_debug_events(events) {
                lemma_no_debug_defer(v.ctx, period);
                lemma_no_debug_concat(events, defer_events(v.ctx, period));
            }
            lemma_advance(v1, events + defer_events(v.ctx, period));
        },
        _ => {},
    }
}


proof fn lemma_tp_finalize(v: SessionView, events: Seq<EventView>)
    ensures
        keeps(v, events, tp_finalize(v, events)),
{
    if !(!v.ctx.dry_run && v.actions.len() > 0) {
        let e = third_party_summary(v.ctx, v.changed_files, v.changed_entries);
        if !v.ctx.debug && no_debug_events(events) {
            lemma_no_debug_push(events, e);
        }
        lemma_advance(v, events.push(e));
    }
}

proof fn lemma_tp_scan(v: SessionView, from: int, events: Seq<EventView>)
    ensures
        keeps(v, events, tp_scan(v, from, events)),
{
    lemma_tp_finalize(v, events);
}

proof fn lemma_one_event(e: EventView)
    requires
        e.level != LogLevel::Debug,
    ensures
        no_debug_events(seq![e]),
{
    assert(seq![e][0] == e);
}

proof fn lemma_on_rel_testing(v: SessionView, r: ReplyView)
    ensures
        keeps(v, seq![], on_rel_testing(v, r)),
{
    if r is Text || r is Failed {
        let testing = match r {
            ReplyView::Text(b) => crate::release::first_codename(crate::text::lines(b)),
            _ => None,
        };
        let available = v.stable_major > v.current_major;
        let d = debug_events(
            v.ctx,
            "check-new-release"@,
            published_release_message(v.stable_major, v.stable_codename, testing),
        );
        let events = d.push(release_verdict(v.ctx, available, v.stable_major, v.stable_codename));
        if !v.ctx.debug {
            lemma_no_debug_push(d, release_verdict(v.ctx, available, v.stable_major, v.stable_codename));
            lemma_no_debug_push(events, run_all_stopped());
            lemma_no_debug_push(events, run_all_bypass());
        }
        let v2 = on_rel_testing(v, r).0;
        let v2 = SessionView {
            release: Some(
                crate::model::ReleaseCheckView {
                    update_available: available,
                    current_major: v.current_major,
                    current_codename: v.current_codename,
                    stable_major: v.stable_major,
                    stable_codename: v.stable_codename,
                    testing_codename: testing,
                },
            ),
            ..v
        };
        lemma_advance(v2, events.push(run_all_bypass()));
        lemma_advance(v2, events);
    }
}

proof fn lemma_on_src_os(v: SessionView, r: ReplyView)
    ensures
        keeps(v, seq![], on_src_os(v, r)),
{
    lemma_advance(v, seq![]);
}

proof fn lemma_on_src_list_exists(v: SessionView, r: ReplyView)
    ensures
        keeps(v, seq![], on_src_list_exists(v, r)),
{
    if let ReplyView::Flag(exists) = r {
        let e = deb822_migrated(v.ctx, v.source_codename, v.target_codename, v.changed, exists);
        lemma_one_event(e);
        lemma_advance(v, seq![e]);
    }
}

proof fn lemma_on_src_rename(v: SessionView, r: ReplyView)
    ensures
        keeps(v, seq![], on_src_rename(v, r)),
{
    let e = deb822_migrated(v.ctx, v.source_codename, v.target_codename, v.changed, true);
    lemma_one_event(e);
    lemma_advance(v, seq![e]);
}

proof fn lemma_on_src_list_read(v: SessionView, r: ReplyView)
    ensures
        keeps(v, seq![], on_src_list_read(v, r)),
{
    if let ReplyView::Text(c) = r {
        let w = crate::sources::rewrite_list_spec(c, v.source_codename, v.target_codename);
        let v2 = SessionView { changed: w.1 as usize, ..v };
        let e = list_migrated(v.ctx, v.source_codename, v.target_codename, w.1 as usize);
        lemma_one_event(e);
        lemma_advance(v2, seq![e]);
    }
}

proof fn lemma_on_src_list_write(v: SessionView, r: ReplyView)
    ensures
        keeps(v, seq![], on_src_list_write(v, r)),
{
    let e = list_migrated(v.ctx, v.source_codename, v.target_codename, v.changed);
    lemma_one_event(e);
    lemma_advance(v, seq![e]);
}

proof fn lemma_on_tp_list(v: SessionView, r: ReplyView)
    ensures
        keeps(v, seq![], on_tp_list(v, r)),
{
    match r {
        ReplyView::Entries(es) => {
            lemma_tp_scan(SessionView { entries: es, ..v }, 0, seq![]);
        },
        ReplyView::Failed(_, _) => {
            let e = on_tp_list(v, r).1.events;
            let e0 = crate::model::ev(
                LogLevel::Warn,
                "disable-third-party"@,
                crate::model::StepState::Done,
                "Aucun repertoire /etc/apt/sources.list.d accessible."@,
            );
            lemma_one_event(e0);
            lemma_advance(v, seq![e0]);
        },
        _ => {},
    }
}

proof fn lemma_on_tp_read(v: SessionView, r: ReplyView)
    ensures
        keeps(v, seq![], on_tp_read(v, r)),
{
    if let ReplyView::Text(c) = r {
        let i = v.entry_index as int;
        let name = if 0 <= i < v.entries.len() && v.entries[i].name is Some {
            v.entries[i].name->0
        } else {
            seq![]
        };
        let o = if is_deb822_name(name) {
            sources_disable_spec(c, v.file_path)
        } else {
            list_disable_spec(c, v.file_path)
        };
        let v2 = SessionView {
            already_disabled: v.already_disabled.saturating_add(o.2 as usize),
            actions: v.actions + o.3,
            ..v
        };
        let v3 = SessionView {
            changed_files: v.changed_files.saturating_add(1),
            changed_entries: v.changed_entries.saturating_add(o.1 as usize),
            file_changed: o.1 as usize,
            ..v2
        };
        let e = file_disabled(v.ctx, v.file_path, o.1 as usize);
        lemma_one_event(e);
        lemma_tp_scan(v2, v.entry_index + 1, seq![]);
        lemma_tp_scan(v3, v.entry_index + 1, seq![e]);
    }
}

proof fn lemma_on_tp_write(v: SessionView, r: ReplyView)
    ensures
        keeps(v, seq![], on_tp_write(v, r)),
{
    let e = file_disabled(v.ctx, v.file_path, v.file_changed);
    lemma_one_event(e);
    lemma_tp_scan(v, v.entry_index + 1, seq![e]);
}

proof fn lemma_on_tp_append(v: SessionView, r: ReplyView)
    ensures
        keeps(v, seq![], on_tp_append(v, r)),
{
    let e = third_party_summary(v.ctx, v.changed_files, v.changed_entries);
    lemma_one_event(e);
    lemma_advance(v, seq![e]);
}

proof fn lemma_on_cmd_wait(v: SessionView, r: ReplyView)
    requires
        session_inv(v),
        v.phase == Phase::CmdWait,
    ensures
        keeps(v, seq![], on_cmd_wait(v, r)),
{
    let c = crate::session::command_spec(v.job, v.cmd_index as nat);
    let e = crate::model::ev(
        LogLevel::Info,
        crate::session::job_step(v.job),
        crate::model::StepState::Pending,
        "Commande OK: "@ + c.line,
    );
    lemma_one_event(e);
    lemma_no_debug_push(seq![e], job_success_event(v.job));
    lemma_advance(v, seq![e].push(job_success_event(v.job)));
}

proof fn lemma_on_sch_sleep(v: SessionView, r: ReplyView)
    ensures
        keeps(v, seq![], on_sch_sleep(v, r)),
{
    if !v.ctx.debug {
        lemma_no_debug_schedule(v.ctx);
    }
    lemma_advance(v, schedule_done_events(v.ctx));
}


/// Every step from a state a session reaches keeps its context, reaches
/// such a state again, changes nothing on the system in dry-run mode,
/// reports debug events only in debug mode, and requests `Finish` exactly
/// when the session is over.
pub proof fn lemma_step(v: SessionView, r: ReplyView)
    requires
        session_inv(v),
    ensures
        keeps(v, seq![], step_spec(v, r)),
{
    match v.phase {
        Phase::Start => {
            if v.run_all {
                lemma_one_event(run_all_banner());
                lemma_advance(v, seq![run_all_banner()]);
            } else {
                lemma_advance(v, seq![]);
            }
        },
        Phase::RelOs => {},
        Phase::RelStable => {},
        Phase::RelTesting => lemma_on_rel_testing(v, r),
        Phase::SrcProbe => {
            if r is Probe || r is Failed {
                if !v.ctx.debug {
                    let supports = crate::session::probe_supports(r);
                    lemma_no_debug_start(
                        v.ctx,
                        "check-sources"@,
                        "Vérification de la normalisation des sources APT..."@,
                        crate::session::sources_planned(supports),
                    );
                }
            }
        },
        Phase::SrcSleep => {
            if r is Done {
                let s = step_spec(v, r).1.events;
                assert(s.len() == 2);
                assert(s[0].level != LogLevel::Debug);
                assert(s[1].level != LogLevel::Debug);
            }
        },
        Phase::SrcOs => lemma_on_src_os(v, r),
        Phase::SrcStable => {},
        Phase::SrcTesting => {},
        Phase::SrcDeb822Exists => {},
        Phase::SrcDeb822Read => {},
        Phase::SrcDeb822Write => {},
        Phase::SrcListExists => lemma_on_src_list_exists(v, r),
        Phase::SrcRename => lemma_on_src_rename(v, r),
        Phase::SrcListRead => lemma_on_src_list_read(v, r),
        Phase::SrcListWrite => lemma_on_src_list_write(v, r),
        Phase::TpList => lemma_on_tp_list(v, r),
        Phase::TpRead => lemma_on_tp_read(v, r),
        Phase::TpWrite => lemma_on_tp_write(v, r),
        Phase::TpDir => {},
        Phase::TpAppend => lemma_on_tp_append(v, r),
        Phase::CmdRun => {
            let s = step_spec(v, r).1.events;
            assert forall|i: int| 0 <= i < s.len() implies #[trigger] s[i].level
                != LogLevel::Debug by {}
        },
        Phase::CmdWait => lemma_on_cmd_wait(v, r),
        Phase::SchSleep => lemma_on_sch_sleep(v, r),
        Phase::Done => {},
    }
}


/// The state of a session from `v` once it took the replies `rs` in order.
pub open spec fn after(v: SessionView, rs: Seq<ReplyView>) -> SessionView
    decreases rs.len(),
{
    if rs.len() == 0 {
        v
    } else {
        step_spec(after(v, rs.drop_last()), rs.last()).0
    }
}

/// The action a session from `v` gives for `r` after the replies `rs`.
pub open spec fn action_after(v: SessionView, rs: Seq<ReplyView>, r: ReplyView) -> ActionView {
    step_spec(after(v, rs), r).1
}

proof fn lemma_after(ctx: AppContext, command: Command, report_release: bool, rs: Seq<ReplyView>)
    ensures
        session_inv(after(initial_view(ctx, command, report_release), rs)),
        after(initial_view(ctx, command, report_release), rs).ctx == ctx,
        releases_ok(after(initial_view(ctx, command, report_release), rs)),
    decreases rs.len(),
{
    if rs.len() > 0 {
        lemma_after(ctx, command, report_release, rs.drop_last());
        lemma_step(after(initial_view(ctx, command, report_release), rs.drop_last()), rs.last());
    }
}

/// A session never changes the context it was started with.
pub proof fn law_context_is_kept(ctx: AppContext, command: Command, report_release: bool, rs: Seq<ReplyView>)
    ensures
        after(initial_view(ctx, command, report_release), rs).ctx == ctx,
{
    lemma_after(ctx, command, report_release, rs);
}

/// In dry-run mode a session never asks the system for a change: no file
/// written, renamed or created, no record appended, no command run.
pub proof fn law_dry_run_changes_nothing(
    ctx: AppContext,
    command: Command,
    report_release: bool,
    rs: Seq<ReplyView>,
    r: ReplyView,
)
    requires
        ctx.dry_run,
    ensures
        !modifies_system(action_after(initial_view(ctx, command, report_release), rs, r).request),
{
    lemma_after(ctx, command, report_release, rs);
    lemma_step(after(initial_view(ctx, command, report_release), rs), r);
}

/// Outside debug mode a session reports no debug event.
pub proof fn law_debug_events_only_in_debug_mode(
    ctx: AppContext,
    command: Command,
    report_release: bool,
    rs: Seq<ReplyView>,
    r: ReplyView,
)
    requires
        !ctx.debug,
    ensures
        no_debug_events(action_after(initial_view(ctx, command, report_release), rs, r).events),
{
    lemma_after(ctx, command, report_release, rs);
    lemma_step(after(initial_view(ctx, command, report_release), rs), r);
}

/// Once a session asks to `Finish` it is over for good: its outcome is
/// settled, and every later reply leaves it as it is, reports nothing, and
/// is answered with `Finish` again.
pub proof fn law_finish_is_final(
    ctx: AppContext,
    command: Command,
    report_release: bool,
    rs: Seq<ReplyView>,
    r: ReplyView,
    later: ReplyView,
)
    requires
        action_after(initial_view(ctx, command, report_release), rs, r).request is Finish,
    ensures
        !(after(initial_view(ctx, command, report_release), rs.push(r)).outcome is Running),
        step_spec(after(initial_view(ctx, command, report_release), rs.push(r)), later) == (
            after(initial_view(ctx, command, report_release), rs.push(r)),
            act(seq![], RequestView::Finish),
        ),
{
    let v0 = initial_view(ctx, command, report_release);
    lemma_after(ctx, command, report_release, rs);
    lemma_step(after(v0, rs), r);
    assert(rs.push(r).drop_last() =~= rs);
}

/// Postponing the notification is done in one step: the debug trace of the
/// period in debug mode, then the confirmation, and the session completes.
pub proof fn law_defer_reports_and_completes(ctx: AppContext, period: DeferPeriod, r: ReplyView)
    ensures
        ({
            let out = step_spec(initial_view(ctx, Command::Defer { period }, false), r);
            &&& out.1 == act(defer_events(ctx, period), RequestView::Finish)
            &&& out.0.outcome == OutcomeView::Completed
            &&& out.1.events.len() > 0
        }),
{
    let v = initial_view(ctx, Command::Defer { period }, false);
    assert(v.jobs =~= seq![crate::session::Job::Defer { period }]);
    let v1 = SessionView { jobs: v.jobs.drop_first(), ..v };
    assert(v1.jobs.len() == 0);
    assert(seq![] + defer_events(ctx, period) =~= defer_events(ctx, period));
    assert(defer_events(ctx, period) + Seq::<EventView>::empty() =~= defer_events(ctx, period));
    let j = crate::session::Job::Defer { period };
    let v2 = SessionView { job: j, ..v1 };
    assert(step_spec(v, r) == advance(v, seq![]));
    assert(advance(v, seq![]) == begin(v1, j, seq![]));
    assert(begin(v1, j, seq![]) == advance(v2, seq![] + defer_events(ctx, period)));
    assert(advance(v2, defer_events(ctx, period)) == crate::session::finish_ok(
        v2,
        defer_events(ctx, period),
    ));
    assert(defer_events(ctx, period).len() > 0);
}


/// Outside debug mode, the full pipeline stops after the release check when
/// no new major release is out: it says so, and nothing else runs.
pub proof fn law_run_all_stops_without_new_release(v: SessionView, r: ReplyView)
    requires
        v.phase == Phase::RelTesting,
        v.run_all,
        !v.ctx.debug,
        v.stable_major <= v.current_major,
        r is Text || r is Failed,
    ensures
        step_spec(v, r).1.request is Finish,
        step_spec(v, r).1.events.last() == run_all_stopped(),
        !(step_spec(v, r).0.outcome is Failed),
{
}

/// In debug mode the full pipeline goes on after the release check even
/// when no new major release is out, and says that it does.
pub proof fn law_run_all_goes_on_in_debug_mode(v: SessionView, r: ReplyView)
    requires
        v.phase == Phase::RelTesting,
        v.run_all,
        v.ctx.debug,
        v.stable_major <= v.current_major,
        r is Text || r is Failed,
        v.jobs.len() > 0,
        v.jobs[0] == crate::session::Job::CheckSources,
    ensures
        step_spec(v, r).1.request is ProbeApt,
        step_spec(v, r).1.events.last() == run_all_bypass(),
{
}


/// The release check reports an available upgrade exactly when the stable
/// major version is above the local one.
pub proof fn law_release_result_is_consistent(
    ctx: AppContext,
    command: Command,
    report_release: bool,
    rs: Seq<ReplyView>,
)
    ensures
        after(initial_view(ctx, command, report_release), rs).outcome matches OutcomeView::Released(
            r,
        ) ==> r.update_available == (r.stable_major > r.current_major),
{
    lemma_after(ctx, command, report_release, rs);
}

/// Phases in which a failed system operation ends the session.
pub open spec fn failure_is_fatal(p: Phase) -> bool {
    match p {
        Phase::RelOs | Phase::RelStable | Phase::SrcOs | Phase::SrcStable | Phase::SrcDeb822Read
        | Phase::SrcDeb822Write | Phase::SrcRename | Phase::SrcListRead | Phase::SrcListWrite
        | Phase::TpRead | Phase::TpWrite | Phase::TpDir | Phase::TpAppend | Phase::CmdRun
        | Phase::CmdWait => true,
        _ => false,
    }
}

/// A failed operation the session depends on stops it at once: nothing
/// more is reported or asked, and the failure keeps the system's own
/// account of what went wrong.
pub proof fn law_failure_stops_the_session(v: SessionView, at: crate::protocol::IoStep, detail: Seq<char>)
    requires
        failure_is_fatal(v.phase),
    ensures
        step_spec(v, ReplyView::Failed(at, detail)).1 == act(seq![], RequestView::Finish),
        step_spec(v, ReplyView::Failed(at, detail)).0.phase == Phase::Done,
        step_spec(v, ReplyView::Failed(at, detail)).0.outcome matches OutcomeView::Failed(e)
            && e.cause == Some(detail),
{
}

/// Failures of what the session can do without do not end it: an
/// unreachable `testing` archive, a missing `apt`, an unreadable sources
/// directory.
pub proof fn law_optional_failures_do_not_fail(v: SessionView, at: crate::protocol::IoStep, detail: Seq<char>)
    requires
        v.phase == Phase::RelTesting || v.phase == Phase::SrcTesting || v.phase == Phase::SrcProbe
            || v.phase == Phase::TpList,
        !(v.outcome is Failed),
    ensures
        !(step_spec(v, ReplyView::Failed(at, detail)).0.outcome is Failed),
{
    let r = ReplyView::Failed(at, detail);
    match v.phase {
        Phase::RelTesting => {
            lemma_advance_not_failed(v, seq![]);
            let testing: Option<Seq<char>> = None;
            let available = v.stable_major > v.current_major;
            let v2 = SessionView {
                release: Some(
                    crate::model::ReleaseCheckView {
                        update_available: available,
                        current_major: v.current_major,
                        current_codename: v.current_codename,
                        stable_major: v.stable_major,
                        stable_codename: v.stable_codename,
                        testing_codename: testing,
                    },
                ),
                ..v
            };
            let events = debug_events(
                v.ctx,
                "check-new-release"@,
                published_release_message(v.stable_major, v.stable_codename, testing),
            ).push(release_verdict(v.ctx, available, v.stable_major, v.stable_codename));
            lemma_advance_not_failed(v2, events.push(run_all_bypass()));
            lemma_advance_not_failed(v2, events);
        },
        Phase::TpList => {
            let e0 = crate::model::ev(
                LogLevel::Warn,
                "disable-third-party"@,
                crate::model::StepState::Done,
                "Aucun repertoire /etc/apt/sources.list.d accessible."@,
            );
            lemma_advance_not_failed(v, seq![e0]);
        },
        _ => {},
    }
}

proof fn lemma_advance_not_failed(v: SessionView, events: Seq<EventView>)
    requires
        !(v.outcome is Failed),
    ensures
        !(advance(v, events).0.outcome is Failed),
    decreases v.jobs.len(), 0nat,
{
    if v.jobs.len() > 0 {
        lemma_begin_not_failed(SessionView { jobs: v.jobs.drop_first(), ..v }, v.jobs[0], events);
    }
}

proof fn lemma_begin_not_failed(v: SessionView, job: crate::session::Job, events: Seq<EventView>)
    requires
        !(v.outcome is Failed),
    ensures
        !(begin(v, job, events).0.outcome is Failed),
    decreases v.jobs.len(), 1nat,
{
    let v1 = SessionView { job, ..v };
    match job {
        crate::session::Job::PreparePackages | crate::session::Job::DryRunUpgrade => {
            let evs = events + job_start_events(v.ctx, job);
            lemma_advance_not_failed(v1, evs.push(job_dry_run_event(job)));
        },
        crate::session::Job::Defer { period } => {
            lemma_advance_not_failed(v1, events + defer_events(v.ctx, period));
        },
        _ => {},
    }
}


// ---------------------------------------------------------------------------
// Dry-run mode reports what a run does
// ---------------------------------------------------------------------------

/// `v` with dry-run mode set to `dry_run`, all else kept.
pub open spec fn with_dry_run(v: SessionView, dry_run: bool) -> SessionView {
    SessionView { ctx: AppContext { dry_run, ..v.ctx }, ..v }
}

/// What the third-party pass tallies: files changed, entries changed,
/// entries found disabled already, and the records to persist.
pub open spec fn third_party_tally(v: SessionView) -> (usize, usize, usize, Seq<Seq<char>>) {
    (v.changed_files, v.changed_entries, v.already_disabled, v.actions)
}

/// No job left to run is another third-party pass.
pub open spec fn no_third_party_pass_left(v: SessionView) -> bool {
    forall|k: int| 0 <= k < v.jobs.len() ==> v.jobs[k] != crate::session::Job::DisableThirdParty
}

/// Moving on to the next jobs keeps the events gathered so far in front,
/// keeps the count of moved source entries, and, when no third-party
/// pass is left, keeps its tally and never waits on a third-party write.
proof fn lemma_advance_carries(v: SessionView, events: Seq<EventView>)
    ensures
        advance(v, events).1.events.len() >= events.len(),
        advance(v, events).1.events.take(events.len() as int) == events,
        advance(v, events).0.changed == v.changed,
        advance(v, events).0.release == v.release,
        no_third_party_pass_left(v) ==> third_party_tally(advance(v, events).0) == third_party_tally(v),
        advance(v, events).0.phase != Phase::TpWrite,
        !(advance(v, events).1.request is WriteFile),
    decreases v.jobs.len(), 0nat,
{
    if v.jobs.len() == 0 {
        let all = events + if v.run_all { seq![crate::session::run_all_done()] } else { seq![] };
        assert(all.take(events.len() as int) =~= events);
    } else {
        let w = SessionView { jobs: v.jobs.drop_first(), ..v };
        if no_third_party_pass_left(v) {
            assert(v.jobs[0] != crate::session::Job::DisableThirdParty);
            assert forall|k: int| 0 <= k < w.jobs.len() implies w.jobs[k] != crate::session::Job::DisableThirdParty by {
                assert(w.jobs[k] == v.jobs[k + 1]);
            }
        }
        lemma_begin_carries(w, v.jobs[0], events);
    }
}

proof fn lemma_begin_carries(v: SessionView, job: crate::session::Job, events: Seq<EventView>)
    ensures
        begin(v, job, events).1.events.len() >= events.len(),
        begin(v, job, events).1.events.take(events.len() as int) == events,
        begin(v, job, events).0.changed == v.changed,
        begin(v, job, events).0.release == v.release,
        no_third_party_pass_left(v) && job != crate::session::Job::DisableThirdParty ==> third_party_tally(
            begin(v, job, events).0,
        ) == third_party_tally(v),
        begin(v, job, events).0.phase != Phase::TpWrite,
        !(begin(v, job, events).1.request is WriteFile),
    decreases v.jobs.len(), 1nat,
{
    let v1 = SessionView { job, ..v };
    let out = begin(v, job, events).1.events;
    match job {
        crate::session::Job::CheckRelease | crate::session::Job::CheckSources => {
            assert(out.take(events.len() as int) =~= events);
        },
        crate::session::Job::DisableThirdParty => {
            assert(out.take(events.len() as int) =~= events);
        },
        crate::session::Job::PreparePackages | crate::session::Job::DryRunUpgrade => {
            let evs = events + job_start_events(v.ctx, job);
            let evs2 = evs.push(job_dry_run_event(job));
            if v.ctx.dry_run {
                lemma_advance_carries(v1, evs2);
                assert(out.take(events.len() as int) =~= out.take(evs2.len() as int).take(
                    events.len() as int,
                ));
                assert(evs2.take(events.len() as int) =~= events);
            } else {
                assert(out.take(events.len() as int) =~= events);
            }
        },
        crate::session::Job::Schedule => {
            assert(out.take(events.len() as int) =~= events);
        },
        crate::session::Job::Defer { period } => {
            let evs = events + defer_events(v.ctx, period);
            lemma_advance_carries(v1, evs);
            assert(out.take(events.len() as int) =~= out.take(evs.len() as int).take(
                events.len() as int,
            ));
            assert(evs.take(events.len() as int) =~= events);
        },
    }
}

proof fn lemma_tp_scan_carries(v: SessionView, from: int, events: Seq<EventView>)
    requires
        no_third_party_pass_left(v),
    ensures
        third_party_tally(tp_scan(v, from, events).0) == third_party_tally(v),
        tp_scan(v, from, events).0.phase != Phase::TpWrite,
{
    lemma_advance_carries(
        v,
        events.push(third_party_summary(v.ctx, v.changed_files, v.changed_entries)),
    );
}

/// In dry-run mode, reading a third-party file tallies the same changed
/// files, changed and already disabled entries, and records as the real
/// run does once it has written that file back (for the last third-party
/// pass of a session).
pub proof fn law_dry_run_tallies_third_party_files_like_a_run(v: SessionView, c: Seq<char>)
    requires
        v.phase == Phase::TpRead,
        no_third_party_pass_left(v),
    ensures
        ({
            let dry = step_spec(with_dry_run(v, true), ReplyView::Text(c)).0;
            let run = step_spec(with_dry_run(v, false), ReplyView::Text(c)).0;
            let written = if run.phase == Phase::TpWrite {
                step_spec(run, ReplyView::Done).0
            } else {
                run
            };
            third_party_tally(dry) == third_party_tally(written)
        }),
{
    let d = with_dry_run(v, true);
    let e = with_dry_run(v, false);
    assert(no_third_party_pass_left(d));
    assert(no_third_party_pass_left(e));
    let i = v.entry_index as int;
    let name = if 0 <= i < v.entries.len() && v.entries[i].name is Some {
        v.entries[i].name->0
    } else {
        seq![]
    };
    let o = if is_deb822_name(name) {
        sources_disable_spec(c, v.file_path)
    } else {
        list_disable_spec(c, v.file_path)
    };
    let d2 = SessionView {
        already_disabled: v.already_disabled.saturating_add(o.2 as usize),
        actions: v.actions + o.3,
        ..d
    };
    let e2 = SessionView {
        already_disabled: v.already_disabled.saturating_add(o.2 as usize),
        actions: v.actions + o.3,
        ..e
    };
    if o.1 == 0 {
        lemma_tp_scan_carries(d2, v.entry_index + 1, seq![]);
        lemma_tp_scan_carries(e2, v.entry_index + 1, seq![]);
    } else {
        let d3 = SessionView {
            changed_files: v.changed_files.saturating_add(1),
            changed_entries: v.changed_entries.saturating_add(o.1 as usize),
            file_changed: o.1 as usize,
            ..d2
        };
        let e3 = SessionView {
            changed_files: v.changed_files.saturating_add(1),
            changed_entries: v.changed_entries.saturating_add(o.1 as usize),
            file_changed: o.1 as usize,
            ..e2
        };
        lemma_tp_scan_carries(d3, v.entry_index + 1, seq![file_disabled(d.ctx, v.file_path, o.1 as usize)]);
        let e4 = SessionView { phase: Phase::TpWrite, ..e3 };
        lemma_tp_scan_carries(e4, v.entry_index + 1, seq![file_disabled(e.ctx, v.file_path, o.1 as usize)]);
    }
}

/// In dry-run mode, reading `debian.sources` or `sources.list` counts the
/// same moved entries as the real run, which asks to write the file back
/// exactly when there is one, while the dry run asks for no change; for `sources.list` both report that count,
/// the real run once the file is written.
pub proof fn law_dry_run_counts_sources_like_a_run(v: SessionView, c: Seq<char>)
    requires
        v.phase == Phase::SrcDeb822Read || v.phase == Phase::SrcListRead,
    ensures
        ({
            let dry = step_spec(with_dry_run(v, true), ReplyView::Text(c));
            let run = step_spec(with_dry_run(v, false), ReplyView::Text(c));
            let n = if v.phase == Phase::SrcDeb822Read {
                rewrite_deb822_spec(c, v.source_codename, v.target_codename).1
            } else {
                rewrite_list_spec(c, v.source_codename, v.target_codename).1
            };
            &&& dry.0.changed == n as usize
            &&& run.0.changed == n as usize
            &&& !modifies_system(dry.1.request)
            &&& (run.1.request is WriteFile <==> n > 0)
            &&& v.phase == Phase::SrcListRead ==> {
                let report = if n > 0 {
                    step_spec(run.0, ReplyView::Done).1
                } else {
                    run.1
                };
                &&& dry.1.events.len() > 0
                &&& dry.1.events[0] == list_migrated(
                    with_dry_run(v, true).ctx,
                    v.source_codename,
                    v.target_codename,
                    n as usize,
                )
                &&& report.events.len() > 0
                &&& report.events[0] == list_migrated(
                    with_dry_run(v, false).ctx,
                    v.source_codename,
                    v.target_codename,
                    n as usize,
                )
            }
        }),
{
    let d = with_dry_run(v, true);
    let e = with_dry_run(v, false);
    if v.phase == Phase::SrcDeb822Read {
        assert(step_spec(d, ReplyView::Text(c)) == crate::session::on_src_deb822_read(d, ReplyView::Text(c)));
        assert(step_spec(e, ReplyView::Text(c)) == crate::session::on_src_deb822_read(e, ReplyView::Text(c)));
    }
    if v.phase == Phase::SrcListRead {
        let w = rewrite_list_spec(c, v.source_codename, v.target_codename);
        let d2 = SessionView { changed: w.1 as usize, ..d };
        let e2 = SessionView { changed: w.1 as usize, ..e };
        let ed = seq![list_migrated(d.ctx, v.source_codename, v.target_codename, w.1 as usize)];
        let ee = seq![list_migrated(e.ctx, v.source_codename, v.target_codename, w.1 as usize)];
        lemma_advance_carries(d2, ed);
        lemma_advance(d2, ed);
        assert(advance(d2, ed).1.events[0] == advance(d2, ed).1.events.take(1)[0]);
        if w.1 > 0 {
            let e3 = SessionView { phase: Phase::SrcListWrite, ..e2 };
            lemma_advance_carries(e3, ee);
            assert(advance(e3, ee).1.events[0] == advance(e3, ee).1.events.take(1)[0]);
        } else {
            lemma_advance_carries(e2, ee);
            assert(advance(e2, ee).1.events[0] == advance(e2, ee).1.events.take(1)[0]);
        }
    }
}

/// The release check, as the last job of a session, does not depend on
/// dry-run mode: the same reply gives the same events and request, and
/// the same next state but for the mode.
pub proof fn law_release_check_ignores_dry_run(v: SessionView, r: ReplyView, dry_run: bool)
    requires
        v.phase == Phase::RelOs || v.phase == Phase::RelStable || v.phase == Phase::RelTesting,
        v.jobs.len() == 0,
    ensures
        step_spec(with_dry_run(v, dry_run), r).1 == step_spec(v, r).1,
        step_spec(with_dry_run(v, dry_run), r).0 == with_dry_run(step_spec(v, r).0, dry_run),
{
}


/// Number of debug events in `s`.
pub open spec fn debug_count(s: Seq<EventView>) -> nat
    decreases s.len(),
{
    if s.len() == 0 {
        0
    } else {
        debug_count(s.drop_last()) + if s.last().level == LogLevel::Debug {
            1nat
        } else {
            0nat
        }
    }
}

proof fn lemma_debug_count_concat(a: Seq<EventView>, b: Seq<EventView>)
    ensures
        debug_count(a + b) == debug_count(a) + debug_count(b),
    decreases b.len(),
{
    if b.len() == 0 {
        assert(a + b =~= a);
    } else {
        lemma_debug_count_concat(a, b.drop_last());
        assert((a + b).drop_last() =~= a + b.drop_last());
        assert((a + b).last() == b.last());
    }
}

/// A release check that reads the local system and both archives' files
/// ends, and reports exactly two debug events in debug mode (the local
/// system, then the published releases) and none otherwise.
pub proof fn law_release_check_traces_twice_in_debug_mode(
    ctx: AppContext,
    os: Seq<char>,
    stable: Seq<char>,
    r: ReplyView,
)
    requires
        os_release_spec(os) is Ok,
        release_fields(lines(stable)).0 is Some,
        release_fields(lines(stable)).1 is Some,
        r is Text || r is Failed,
    ensures
        ({
            let s1 = step_spec(initial_view(ctx, Command::CheckNewRelease, true), ReplyView::Start);
            let s2 = step_spec(s1.0, ReplyView::Text(os));
            let s3 = step_spec(s2.0, ReplyView::Text(stable));
            let s4 = step_spec(s3.0, r);
            &&& s4.0.phase == Phase::Done
            &&& debug_count(s1.1.events + s2.1.events + s3.1.events + s4.1.events) == if ctx.debug {
                2nat
            } else {
                0nat
            }
        }),
{
    let v0 = initial_view(ctx, Command::CheckNewRelease, true);
    let s1 = step_spec(v0, ReplyView::Start);
    let s2 = step_spec(s1.0, ReplyView::Text(os));
    let s3 = step_spec(s2.0, ReplyView::Text(stable));
    let s4 = step_spec(s3.0, r);
    assert(v0.jobs =~= seq![crate::session::Job::CheckRelease]);
    assert(s1.1.events =~= seq![crate::session::release_running_event()]);
    assert(s1.0.jobs.len() == 0);
    assert(s1.0.phase == Phase::RelOs);
    assert(s2.0.phase == Phase::RelStable);
    assert(s3.0.phase == Phase::RelTesting);
    assert(s3.1.events.len() == 0);
    let e1 = s1.1.events;
    let e2 = s2.1.events;
    let e3 = s3.1.events;
    let e4 = s4.1.events;
    let d4 = s4.1.events.drop_last();
    assert(debug_count(Seq::<EventView>::empty()) == 0);
    assert(debug_count(e1) == 0) by {
        assert(e1.drop_last() =~= Seq::<EventView>::empty());
        assert(e1.last().level == LogLevel::Info);
    }
    assert(e4.last().level != LogLevel::Debug);
    if ctx.debug {
        assert(debug_count(e2) == 1) by {
            assert(e2.len() == 1);
            assert(e2.drop_last() =~= Seq::<EventView>::empty());
            assert(e2.last().level == LogLevel::Debug);
        }
        assert(debug_count(d4) == 1) by {
            assert(d4.len() == 1);
            assert(d4.drop_last() =~= Seq::<EventView>::empty());
            assert(d4.last().level == LogLevel::Debug);
        }
    } else {
        assert(e2 =~= Seq::<EventView>::empty());
        assert(d4 =~= Seq::<EventView>::empty());
    }
    lemma_debug_count_concat(e1, e2);
    lemma_debug_count_concat(e1 + e2, e3);
    lemma_debug_count_concat(e1 + e2 + e3, e4);
}


/// `v` as a session that does not hand back its release result: a
/// `Released` outcome reads as `Completed`.
pub open spec fn unreported(v: SessionView) -> SessionView {
    SessionView {
        report_release: false,
        outcome: match v.outcome {
            OutcomeView::Released(_) => OutcomeView::Completed,
            o => o,
        },
        ..v
    }
}

/// The states of a release check session.
pub open spec fn release_check_state(v: SessionView) -> bool {
    ||| v.phase == Phase::Start && v.jobs == seq![crate::session::Job::CheckRelease] && !v.run_all
    ||| v.jobs.len() == 0 && !v.run_all && (v.phase == Phase::RelOs || v.phase == Phase::RelStable
        || v.phase == Phase::RelTesting || v.phase == Phase::Done)
}

proof fn lemma_release_step_unreported(v: SessionView, r: ReplyView)
    requires
        release_check_state(v),
    ensures
        step_spec(unreported(v), r) == (unreported(step_spec(v, r).0), step_spec(v, r).1),
        release_check_state(step_spec(v, r).0),
{
    let u = unreported(v);
    assert(u.phase == v.phase);
    if v.phase == Phase::Start {
        let w = SessionView { jobs: v.jobs.drop_first(), ..v };
        assert(w.jobs =~= Seq::<crate::session::Job>::empty());
        assert(step_spec(v, r) == advance(v, seq![]));
        assert(step_spec(u, r) == advance(u, seq![]));
        assert(advance(v, seq![]) == begin(w, crate::session::Job::CheckRelease, seq![]));
        assert(advance(u, seq![]) == begin(
            SessionView { jobs: u.jobs.drop_first(), ..u },
            crate::session::Job::CheckRelease,
            seq![],
        ));
    } else if v.phase == Phase::RelOs {
        assert(step_spec(v, r) == crate::session::on_rel_os(v, r));
        assert(step_spec(u, r) == crate::session::on_rel_os(u, r));
    } else if v.phase == Phase::RelStable {
        assert(step_spec(v, r) == crate::session::on_rel_stable(v, r));
        assert(step_spec(u, r) == crate::session::on_rel_stable(u, r));
    } else if v.phase == Phase::RelTesting {
        assert(step_spec(v, r) == on_rel_testing(v, r));
        assert(step_spec(u, r) == on_rel_testing(u, r));
    } else {
        assert(step_spec(v, r) == (v, act(seq![], RequestView::Finish)));
        assert(step_spec(u, r) == (u, act(seq![], RequestView::Finish)));
    }
}

proof fn lemma_release_after_unreported(ctx: AppContext, rs: Seq<ReplyView>)
    ensures
        after(initial_view(ctx, Command::CheckNewRelease, false), rs) == unreported(
            after(initial_view(ctx, Command::CheckNewRelease, true), rs),
        ),
        release_check_state(after(initial_view(ctx, Command::CheckNewRelease, true), rs)),
    decreases rs.len(),
{
    let v0 = initial_view(ctx, Command::CheckNewRelease, true);
    if rs.len() == 0 {
        assert(v0.jobs =~= seq![crate::session::Job::CheckRelease]);
        assert(initial_view(ctx, Command::CheckNewRelease, false) == unreported(v0));
    } else {
        lemma_release_after_unreported(ctx, rs.drop_last());
        lemma_release_step_unreported(after(v0, rs.drop_last()), rs.last());
    }
}

/// Running the release check as a command does what
/// `check_new_major_release` does, step for step: the same events and
/// requests, and the same outcome, except that the release result is not
/// handed back (a `Released` outcome reads as `Completed`).
pub proof fn law_release_command_runs_the_release_check(ctx: AppContext, rs: Seq<ReplyView>, r: ReplyView)
    ensures
        after(initial_view(ctx, Command::CheckNewRelease, false), rs) == unreported(
            after(initial_view(ctx, Command::CheckNewRelease, true), rs),
        ),
        action_after(initial_view(ctx, Command::CheckNewRelease, false), rs, r) == action_after(
            initial_view(ctx, Command::CheckNewRelease, true),
            rs,
            r,
        ),
{
    lemma_release_after_unreported(ctx, rs);
    lemma_release_step_unreported(after(initial_view(ctx, Command::CheckNewRelease, true), rs), r);
}


// ---------------------------------------------------------------------------
// What the steps ask of the system
// ---------------------------------------------------------------------------

/// Outside dry-run mode, reading `debian.sources` or `sources.list` asks to
/// write the file back exactly when some suite moves, and what it writes is
/// the text read with its suites moved from the local codename to the
/// target: a text in which, for a target that is one word whose own
/// suites do not move, no suite is left to move.
pub proof fn law_sources_write_moves_the_suites(v: SessionView, c: Seq<char>)
    requires
        v.phase == Phase::SrcDeb822Read || v.phase == Phase::SrcListRead,
        !v.ctx.dry_run,
    ensures
        ({
            let deb822 = v.phase == Phase::SrcDeb822Read;
            let path = if deb822 {
                "/etc/apt/sources.list.d/debian.sources"@
            } else {
                "/etc/apt/sources.list"@
            };
            let w = if deb822 {
                rewrite_deb822_spec(c, v.source_codename, v.target_codename)
            } else {
                rewrite_list_spec(c, v.source_codename, v.target_codename)
            };
            let request = step_spec(v, ReplyView::Text(c)).1.request;
            &&& (request is WriteFile <==> w.1 > 0)
            &&& request is WriteFile ==> request == RequestView::WriteFile(path, w.0)
            &&& (request is WriteFile && fresh_target(v.source_codename, v.target_codename)
                && is_word(v.target_codename) && !v.target_codename.contains('#')
                && !contains(c, "\r\r\n"@)) ==> {
                let again = if deb822 {
                    rewrite_deb822_spec(request->WriteFile_1, v.source_codename, v.target_codename)
                } else {
                    rewrite_list_spec(request->WriteFile_1, v.source_codename, v.target_codename)
                };
                &&& again.1 == 0
                &&& request->WriteFile_1 != c
            }
        }),
{
    let src = v.source_codename;
    let tgt = v.target_codename;
    if v.phase == Phase::SrcDeb822Read {
        let w = rewrite_deb822_spec(c, src, tgt);
        if w.1 > 0 && fresh_target(src, tgt) && is_word(tgt) && !contains(c, "\r\r\n"@) {
            law_deb822_rewrite_is_idempotent(c, src, tgt);
        }
    } else {
        let w = rewrite_list_spec(c, src, tgt);
        if w.1 > 0 {
            if fresh_target(src, tgt) && is_word(tgt) && !tgt.contains('#') && !contains(c, "\r\r\n"@) {
                law_list_rewrite_is_idempotent(c, src, tgt);
            }
        } else {
            let v2 = SessionView { changed: w.1 as usize, ..v };
            lemma_advance_carries(v2, seq![list_migrated(v.ctx, src, tgt, w.1 as usize)]);
        }
    }
}

/// Outside dry-run mode, reading a third-party file asks to write it back
/// exactly when an entry gets disabled, and what it writes is the text read
/// with its entries disabled: every stanza of a `.sources` file off, every
/// active entry of another file commented out, so that nothing is left to
/// disable in it (for another file, unless a line that ends with a
/// carriage return before its line feed would be an active entry without
/// it).
pub proof fn law_third_party_write_disables_the_file(v: SessionView, c: Seq<char>)
    requires
        v.phase == Phase::TpRead,
        !v.ctx.dry_run,
    ensures
        ({
            let i = v.entry_index as int;
            let name = if 0 <= i < v.entries.len() && v.entries[i].name is Some {
                v.entries[i].name->0
            } else {
                seq![]
            };
            let deb822 = is_deb822_name(name);
            let o = if deb822 {
                sources_disable_spec(c, v.file_path)
            } else {
                list_disable_spec(c, v.file_path)
            };
            let request = step_spec(v, ReplyView::Text(c)).1.request;
            &&& (request is WriteFile <==> o.1 > 0)
            &&& request is WriteFile ==> request == RequestView::WriteFile(v.file_path, o.0)
            &&& (request is WriteFile && deb822) ==> sources_disable_spec(request->WriteFile_1, v.file_path).1 == 0
            &&& (request is WriteFile && !deb822 && cr_lines_stay_inactive(c)) ==> list_disable_spec(
                request->WriteFile_1,
                v.file_path,
            ).1 == 0
            &&& (request is WriteFile && (deb822 || cr_lines_stay_inactive(c))) ==> request->WriteFile_1 != c
        }),
{
    let i = v.entry_index as int;
    let name = if 0 <= i < v.entries.len() && v.entries[i].name is Some {
        v.entries[i].name->0
    } else {
        seq![]
    };
    let o = if is_deb822_name(name) {
        sources_disable_spec(c, v.file_path)
    } else {
        list_disable_spec(c, v.file_path)
    };
    if o.1 == 0 {
        let v2 = SessionView {
            already_disabled: v.already_disabled.saturating_add(o.2 as usize),
            actions: v.actions + o.3,
            ..v
        };
        lemma_tp_scan_no_write(v2, v.entry_index + 1, seq![]);
    } else if is_deb822_name(name) {
        law_sources_second_run_changes_nothing(c, v.file_path);
    } else {
        law_list_second_run_changes_nothing(c, v.file_path);
    }
}

proof fn lemma_tp_scan_no_write(v: SessionView, from: int, events: Seq<EventView>)
    ensures
        !(tp_scan(v, from, events).1.request is WriteFile),
{
    lemma_advance_carries(
        v,
        events.push(third_party_summary(v.ctx, v.changed_files, v.changed_entries)),
    );
}

/// The verdict of a release check, reported right after its debug trace:
/// a `Success` saying that a new major release is available exactly when
/// the stable major version is above the local one, a `Warn` saying that
/// none is available otherwise; and the result agrees.
pub proof fn law_release_verdict_follows_the_versions(v: SessionView, r: ReplyView)
    requires
        v.phase == Phase::RelTesting,
        r is Text || r is Failed,
    ensures
        ({
            let out = step_spec(v, r);
            let k = if v.ctx.debug {
                1int
            } else {
                0int
            };
            let e = out.1.events[k];
            let newer = v.stable_major > v.current_major;
            &&& out.1.events.len() > k
            &&& e.step == "check-new-release"@
            &&& e.state == StepState::Done
            &&& (e.level == LogLevel::Success <==> newer)
            &&& (!newer ==> e.level == LogLevel::Warn)
            &&& (starts_with(e.message, "Nouvelle version majeure disponible"@) <==> newer)
            &&& (!newer ==> starts_with(e.message, "Aucune nouvelle version majeure Debian disponible"@))
            &&& out.0.release is Some
            &&& out.0.release->0.update_available == newer
        }),
{
    reveal_strlit("Nouvelle version majeure disponible");
    reveal_strlit("Nouvelle version majeure disponible: ");
    reveal_strlit("Aucune nouvelle version majeure Debian disponible");
    reveal_strlit("Aucune nouvelle version majeure Debian disponible (stable ");
    reveal_strlit("Aucune nouvelle version majeure Debian disponible. Version stable actuelle: ");
    let testing = match r {
        ReplyView::Text(b) => first_codename(lines(b)),
        _ => None,
    };
    let available = v.stable_major > v.current_major;
    let dbg = debug_events(
        v.ctx,
        "check-new-release"@,
        published_release_message(v.stable_major, v.stable_codename, testing),
    );
    let verdict = release_verdict(v.ctx, available, v.stable_major, v.stable_codename);
    let events = dbg.push(verdict);
    let k = if v.ctx.debug {
        1int
    } else {
        0int
    };
    assert(events[k] == verdict);
    let v2 = SessionView {
        release: Some(
            crate::model::ReleaseCheckView {
                update_available: available,
                current_major: v.current_major,
                current_codename: v.current_codename,
                stable_major: v.stable_major,
                stable_codename: v.stable_codename,
                testing_codename: testing,
            },
        ),
        ..v
    };
    if v.run_all && !available && !v.ctx.debug {
        assert(events.push(run_all_stopped())[k] == verdict);
    } else if v.run_all && !available {
        let e2 = events.push(run_all_bypass());
        lemma_advance_carries(v2, e2);
        assert(step_spec(v, r).1.events.take(e2.len() as int)[k] == e2[k]);
    } else {
        lemma_advance_carries(v2, events);
        assert(step_spec(v, r).1.events.take(events.len() as int)[k] == events[k]);
    }
    assert(step_spec(v, r).1.events[k] == verdict);
    assert(step_spec(v, r).0.release == v2.release);
    let m = verdict.message;
    let yes = "Nouvelle version majeure disponible"@;
    let no = "Aucune nouvelle version majeure Debian disponible"@;
    if available {
        assert(m.take(yes.len() as int) =~= yes);
    } else {
        assert(m.take(no.len() as int) =~= no);
        assert(m[0] != yes[0]);
        if starts_with(m, yes) {
            assert(m.take(yes.len() as int)[0] == m[0]);
        }
    }
}

/// A package preparation, outside dry-run mode, runs three commands one
/// after the other: `apt-get clean` first, then `apt-get update` once it
/// succeeded, then the download of the upgrade once that succeeded; only
/// the success of the download reports the preparation done.
pub proof fn law_prepare_packages_runs_clean_update_download(
    ctx: AppContext,
    report_release: bool,
    v: SessionView,
)
    requires
        !ctx.dry_run,
        v.job == crate::session::Job::PreparePackages,
        v.phase == Phase::CmdWait,
        v.cmd_index < 3,
    ensures
        step_spec(initial_view(ctx, Command::PreparePackages, report_release), ReplyView::Start).1.request
            == RequestView::Run("apt-get clean 2>&1"@),
        ({
            let out = step_spec(v, ReplyView::Exited(true));
            &&& v.cmd_index == 0 ==> out.1.request == RequestView::Run("env DEBIAN_FRONTEND=noninteractive DEBIAN_PRIORITY=critical APT_LISTCHANGES_FRONTEND=none apt-get update 2>&1"@)
                && out.1.events.len() == 1 && out.1.events[0].level == LogLevel::Info
            &&& v.cmd_index == 1 ==> out.1.request == RequestView::Run("env DEBIAN_FRONTEND=noninteractive DEBIAN_PRIORITY=critical APT_LISTCHANGES_FRONTEND=none apt-get -y -o Dpkg::Options::=--force-confdef -o Dpkg::Options::=--force-confold -o APT::Get::Always-Include-Phased-Updates=true --download-only dist-upgrade 2>&1"@)
                && out.1.events.len() == 1 && out.1.events[0].level == LogLevel::Info
            &&& v.cmd_index == 2 ==> out.1.events.len() >= 2 && out.1.events[1].level == LogLevel::Success
                && out.1.events[1].state == StepState::Done && out.1.events[1].message
                == "Preparation des paquets terminee."@
        }),
{
    reveal_strlit("apt-get clean");
    reveal_strlit(" 2>&1");
    reveal_strlit("apt-get clean 2>&1");
    reveal_strlit("env DEBIAN_FRONTEND=noninteractive DEBIAN_PRIORITY=critical APT_LISTCHANGES_FRONTEND=none apt-get update");
    reveal_strlit("env DEBIAN_FRONTEND=noninteractive DEBIAN_PRIORITY=critical APT_LISTCHANGES_FRONTEND=none apt-get update 2>&1");
    reveal_strlit("env DEBIAN_FRONTEND=noninteractive DEBIAN_PRIORITY=critical APT_LISTCHANGES_FRONTEND=none apt-get -y -o Dpkg::Options::=--force-confdef -o Dpkg::Options::=--force-confold -o APT::Get::Always-Include-Phased-Updates=true --download-only dist-upgrade");
    reveal_strlit("env DEBIAN_FRONTEND=noninteractive DEBIAN_PRIORITY=critical APT_LISTCHANGES_FRONTEND=none apt-get -y -o Dpkg::Options::=--force-confdef -o Dpkg::Options::=--force-confold -o APT::Get::Always-Include-Phased-Updates=true --download-only dist-upgrade 2>&1");
    let v0 = initial_view(ctx, Command::PreparePackages, report_release);
    assert(v0.jobs =~= seq![crate::session::Job::PreparePackages]);
    assert("apt-get clean"@ + " 2>&1"@ =~= "apt-get clean 2>&1"@);
    assert("env DEBIAN_FRONTEND=noninteractive DEBIAN_PRIORITY=critical APT_LISTCHANGES_FRONTEND=none apt-get update"@ + " 2>&1"@ =~= "env DEBIAN_FRONTEND=noninteractive DEBIAN_PRIORITY=critical APT_LISTCHANGES_FRONTEND=none apt-get update 2>&1"@);
    assert("env DEBIAN_FRONTEND=noninteractive DEBIAN_PRIORITY=critical APT_LISTCHANGES_FRONTEND=none apt-get -y -o Dpkg::Options::=--force-confdef -o Dpkg::Options::=--force-confold -o APT::Get::Always-Include-Phased-Updates=true --download-only dist-upgrade"@ + " 2>&1"@ =~= "env DEBIAN_FRONTEND=noninteractive DEBIAN_PRIORITY=critical APT_LISTCHANGES_FRONTEND=none apt-get -y -o Dpkg::Options::=--force-confdef -o Dpkg::Options::=--force-confold -o APT::Get::Always-Include-Phased-Updates=true --download-only dist-upgrade 2>&1"@);
    if v.cmd_index == 2 {
        let c = crate::session::command_spec(v.job, 2);
        let events = seq![ev(LogLevel::Info, "prepare-packages"@, StepState::Pending, "Commande OK: "@ + c.line)]
            .push(crate::session::job_success_event(v.job));
        lemma_advance_carries(v, events);
        assert(step_spec(v, ReplyView::Exited(true)).1.events.take(2)[1] == events[1]);
    }
}

/// A simulated upgrade, outside dry-run mode, runs the simulation
/// `apt-get -s dist-upgrade` and nothing that applies the upgrade; its
/// success is that command's, reported once it exits well.
pub proof fn law_dry_run_upgrade_only_simulates(ctx: AppContext, report_release: bool, v: SessionView)
    requires
        !ctx.dry_run,
        v.job == crate::session::Job::DryRunUpgrade,
        v.phase == Phase::CmdWait,
    ensures
        step_spec(initial_view(ctx, Command::DryRunUpgrade, report_release), ReplyView::Start).1.request
            == RequestView::Run("env DEBIAN_FRONTEND=noninteractive DEBIAN_PRIORITY=critical APT_LISTCHANGES_FRONTEND=none apt-get -s -o Dpkg::Options::=--force-confdef -o Dpkg::Options::=--force-confold dist-upgrade 2>&1"@),
        ({
            let out = step_spec(v, ReplyView::Exited(true));
            &&& out.1.events.len() >= 2
            &&& out.1.events[0].message == "Commande OK: env DEBIAN_FRONTEND=noninteractive DEBIAN_PRIORITY=critical APT_LISTCHANGES_FRONTEND=none apt-get -s -o Dpkg::Options::=--force-confdef -o Dpkg::Options::=--force-confold dist-upgrade"@
            &&& out.1.events[1].level == LogLevel::Success
            &&& out.1.events[1].message == "Dry-run upgrade valide."@
        }),
{
    reveal_strlit(" 2>&1");
    reveal_strlit("env DEBIAN_FRONTEND=noninteractive DEBIAN_PRIORITY=critical APT_LISTCHANGES_FRONTEND=none apt-get -s -o Dpkg::Options::=--force-confdef -o Dpkg::Options::=--force-confold dist-upgrade");
    reveal_strlit("env DEBIAN_FRONTEND=noninteractive DEBIAN_PRIORITY=critical APT_LISTCHANGES_FRONTEND=none apt-get -s -o Dpkg::Options::=--force-confdef -o Dpkg::Options::=--force-confold dist-upgrade 2>&1");
    reveal_strlit("Commande OK: ");
    reveal_strlit("Commande OK: env DEBIAN_FRONTEND=noninteractive DEBIAN_PRIORITY=critical APT_LISTCHANGES_FRONTEND=none apt-get -s -o Dpkg::Options::=--force-confdef -o Dpkg::Options::=--force-confold dist-upgrade");
    let v0 = initial_view(ctx, Command::DryRunUpgrade, report_release);
    assert(v0.jobs =~= seq![crate::session::Job::DryRunUpgrade]);
    assert("env DEBIAN_FRONTEND=noninteractive DEBIAN_PRIORITY=critical APT_LISTCHANGES_FRONTEND=none apt-get -s -o Dpkg::Options::=--force-confdef -o Dpkg::Options::=--force-confold dist-upgrade"@ + " 2>&1"@ =~= "env DEBIAN_FRONTEND=noninteractive DEBIAN_PRIORITY=critical APT_LISTCHANGES_FRONTEND=none apt-get -s -o Dpkg::Options::=--force-confdef -o Dpkg::Options::=--force-confold dist-upgrade 2>&1"@);
    assert("Commande OK: "@ + "env DEBIAN_FRONTEND=noninteractive DEBIAN_PRIORITY=critical APT_LISTCHANGES_FRONTEND=none apt-get -s -o Dpkg::Options::=--force-confdef -o Dpkg::Options::=--force-confold dist-upgrade"@ =~= "Commande OK: env DEBIAN_FRONTEND=noninteractive DEBIAN_PRIORITY=critical APT_LISTCHANGES_FRONTEND=none apt-get -s -o Dpkg::Options::=--force-confdef -o Dpkg::Options::=--force-confold dist-upgrade"@);
    let c = crate::session::command_spec(v.job, v.cmd_index as nat);
    let events = seq![ev(LogLevel::Info, "dry-run-upgrade"@, StepState::Pending, "Commande OK: "@ + c.line)]
        .push(crate::session::job_success_event(v.job));
    lemma_advance_carries(v, events);
    assert(step_spec(v, ReplyView::Exited(true)).1.events.take(2)[0] == events[0]);
    assert(step_spec(v, ReplyView::Exited(true)).1.events.take(2)[1] == events[1]);
}


/// A release check that reads the local system's `os-release`, then the
/// stable and testing archives' `Release` files, ends with the versions it
/// read: the local major version and codename, the stable major version
/// and codename, the testing codename when that file named one, and an
/// upgrade available exactly when the stable major version is above the
/// local one.
pub proof fn law_release_check_reports_what_it_read(
    ctx: AppContext,
    os: Seq<char>,
    stable: Seq<char>,
    r: ReplyView,
)
    requires
        os_release_spec(os) is Ok,
        release_fields(lines(stable)).0 is Some,
        release_fields(lines(stable)).1 is Some,
        r is Text || r is Failed,
    ensures
        ({
            let s1 = step_spec(initial_view(ctx, Command::CheckNewRelease, true), ReplyView::Start);
            let s2 = step_spec(s1.0, ReplyView::Text(os));
            let s3 = step_spec(s2.0, ReplyView::Text(stable));
            let s4 = step_spec(s3.0, r);
            let local = os_release_spec(os)->Ok_0;
            let f = release_fields(lines(stable));
            let testing = match r {
                ReplyView::Text(b) => first_codename(lines(b)),
                _ => None,
            };
            s4.0.outcome == OutcomeView::Released(
                crate::model::ReleaseCheckView {
                    update_available: f.0->0 > local.0,
                    current_major: local.0,
                    current_codename: local.1,
                    stable_major: f.0->0,
                    stable_codename: f.1->0,
                    testing_codename: testing,
                },
            )
        }),
{
    let v0 = initial_view(ctx, Command::CheckNewRelease, true);
    let s1 = step_spec(v0, ReplyView::Start);
    let s2 = step_spec(s1.0, ReplyView::Text(os));
    let s3 = step_spec(s2.0, ReplyView::Text(stable));
    assert(v0.jobs =~= seq![crate::session::Job::CheckRelease]);
    assert(s1.0.jobs.len() == 0);
    assert(s1.0.phase == Phase::RelOs);
    assert(s2.0.phase == Phase::RelStable);
    assert(s3.0.phase == Phase::RelTesting);
}

/// A check of the sources on a Debian 12 without `modernize-sources` moves
/// the suites from the local codename (`bookworm` when `os-release` names
/// none) to the codename of the stable archive.
pub proof fn law_sources_move_from_local_to_stable(v: SessionView, os: Seq<char>, stable: Seq<char>)
    requires
        v.phase == Phase::SrcOs,
        os_release_spec(os) is Ok,
        os_release_spec(os)->Ok_0.0 == 12,
        !v.supports_modernize,
        release_fields(lines(stable)).0 is Some,
        release_fields(lines(stable)).1 is Some,
    ensures
        ({
            let s1 = step_spec(v, ReplyView::Text(os));
            let s2 = step_spec(s1.0, ReplyView::Text(stable));
            &&& s1.1.request == RequestView::Fetch("https://deb.debian.org/debian/dists/stable/Release"@)
            &&& s1.0.source_codename == match os_release_spec(os)->Ok_0.1 {
                Some(c) => c,
                None => "bookworm"@,
            }
            &&& s2.0.source_codename == s1.0.source_codename
            &&& s2.0.target_codename == release_fields(lines(stable)).1->0
        }),
{
}

} // verus!
