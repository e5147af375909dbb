//! The upgrade assistant's tasks as a state machine.  A `Session` is
//! started for a command; each `step` takes the reply to the previous
//! request and gives the events to report and the next request to
//! perform, until it asks to `Finish`.
use vstd::prelude::*;
use crate::model::{
    AppContext, Command, DeferPeriod, Event, EventView, LogLevel, ReleaseCheckResult,
    ReleaseCheckView, StepState, debug_option_string, debug_option_text, ev, event, event_str,
    events_view, push_event,
};
use crate::protocol::{
    Action, ActionView, CoreError, CoreErrorView, DirEntry, DirEntryView, IoStep, Outcome,
    OutcomeView, Reply, ReplyView, Request, RequestView, entries_view,
};
use crate::release::{
    OsReleaseError, first_codename, int_error_str, int_error_text, os_release_spec, parse_os_release,
    parse_stable_release, parse_testing_codename, release_fields,
};
use crate::sources::{
    rewrite_debian_sources, rewrite_deb822_spec, rewrite_list_spec, rewrite_sources_list,
};
use crate::stream::{LineSplitter, final_line, split_output};
use crate::text::{
    chars_of, contains, contains_text, decimal, decimal_string, lines, opt_view, string_of,
};
use crate::third_party::{
    disable_list_repo_lines, disable_sources_entries, is_candidate, is_deb822_file,
    is_deb822_name, list_disable_spec, sources_disable_spec, third_party_candidate,
};

verus! {

// ---------------------------------------------------------------------------
// Jobs, phases and commands
// ---------------------------------------------------------------------------

/// One task of a session.
#[derive(Clone, Copy, Debug, PartialEq, Eq, Structural)]
pub enum Job {
    CheckRelease,
    CheckSources,
    DisableThirdParty,
    PreparePackages,
    DryRunUpgrade,
    Schedule,
    Defer { period: DeferPeriod },
}

/// What the session waits for.
#[derive(Clone, Copy, Debug, PartialEq, Eq, Structural)]
pub enum Phase {
    Start,
    RelOs,
    RelStable,
    RelTesting,
    SrcProbe,
    SrcSleep,
    SrcOs,
    SrcStable,
    SrcTesting,
    SrcDeb822Exists,
    SrcDeb822Read,
    SrcDeb822Write,
    SrcListExists,
    SrcRename,
    SrcListRead,
    SrcListWrite,
    TpList,
    TpRead,
    TpWrite,
    TpDir,
    TpAppend,
    CmdRun,
    CmdWait,
    SchSleep,
    Done,
}

/// A shell command the packages steps run: its program, its full command
/// line, and its arguments as `Debug` writes a list of texts.
pub struct ShellCommand {
    pub program: &'static str,
    pub line: &'static str,
    pub args_debug: &'static str,
}

pub struct ShellCommandView {
    pub program: Seq<char>,
    pub line: Seq<char>,
    pub args_debug: Seq<char>,
}

/// Number of commands a job runs.
pub open spec fn command_count(job: Job) -> nat {
    match job {
        Job::PreparePackages => 3,
        Job::DryRunUpgrade => 1,
        _ => 0,
    }
}

pub open spec fn command_spec(job: Job, i: nat) -> ShellCommandView {
    if job == Job::DryRunUpgrade {
        ShellCommandView {
            program: "env"@,
            line: "env DEBIAN_FRONTEND=noninteractive DEBIAN_PRIORITY=critical APT_LISTCHANGES_FRONTEND=none apt-get -s -o Dpkg::Options::=--force-confdef -o Dpkg::Options::=--force-confold dist-upgrade"@,
            args_debug: "[\"DEBIAN_FRONTEND=noninteractive\", \"DEBIAN_PRIORITY=critical\", \"APT_LISTCHANGES_FRONTEND=none\", \"apt-get\", \"-s\", \"-o\", \"Dpkg::Options::=--force-confdef\", \"-o\", \"Dpkg::Options::=--force-confold\", \"dist-upgrade\"]"@,
        }
    } else if i == 0 {
        ShellCommandView {
            program: "apt-get"@,
            line: "apt-get clean"@,
            args_debug: "[\"clean\"]"@,
        }
    } else if i == 1 {
        ShellCommandView {
            program: "env"@,
            line: "env DEBIAN_FRONTEND=noninteractive DEBIAN_PRIORITY=critical APT_LISTCHANGES_FRONTEND=none apt-get update"@,
            args_debug: "[\"DEBIAN_FRONTEND=noninteractive\", \"DEBIAN_PRIORITY=critical\", \"APT_LISTCHANGES_FRONTEND=none\", \"apt-get\", \"update\"]"@,
        }
    } else {
        ShellCommandView {
            program: "env"@,
            line: "env DEBIAN_FRONTEND=noninteractive DEBIAN_PRIORITY=critical APT_LISTCHANGES_FRONTEND=none apt-get -y -o Dpkg::Options::=--force-confdef -o Dpkg::Options::=--force-confold -o APT::Get::Always-Include-Phased-Updates=true --download-only dist-upgrade"@,
            args_debug: "[\"DEBIAN_FRONTEND=noninteractive\", \"DEBIAN_PRIORITY=critical\", \"APT_LISTCHANGES_FRONTEND=none\", \"apt-get\", \"-y\", \"-o\", \"Dpkg::Options::=--force-confdef\", \"-o\", \"Dpkg::Options::=--force-confold\", \"-o\", \"APT::Get::Always-Include-Phased-Updates=true\", \"--download-only\", \"dist-upgrade\"]"@,
        }
    }
}

/// The shell command line run for `c`: its output and errors go to one pipe.
pub open spec fn shell_line(c: ShellCommandView) -> Seq<char> {
    c.line + " 2>&1"@
}

fn command_at(job: Job, i: usize) -> (c: ShellCommand)
    ensures
        c.program@ == command_spec(job, i as nat).program,
        c.line@ == command_spec(job, i as nat).line,
        c.args_debug@ == command_spec(job, i as nat).args_debug,
{
    if job == Job::DryRunUpgrade {
        ShellCommand {
            program: "env",
            line: "env DEBIAN_FRONTEND=noninteractive DEBIAN_PRIORITY=critical APT_LISTCHANGES_FRONTEND=none apt-get -s -o Dpkg::Options::=--force-confdef -o Dpkg::Options::=--force-confold dist-upgrade",
            args_debug: "[\"DEBIAN_FRONTEND=noninteractive\", \"DEBIAN_PRIORITY=critical\", \"APT_LISTCHANGES_FRONTEND=none\", \"apt-get\", \"-s\", \"-o\", \"Dpkg::Options::=--force-confdef\", \"-o\", \"Dpkg::Options::=--force-confold\", \"dist-upgrade\"]",
        }
    } else if i == 0 {
        ShellCommand { program: "apt-get", line: "apt-get clean", args_debug: "[\"clean\"]" }
    } else if i == 1 {
        ShellCommand {
            program: "env",
            line: "env DEBIAN_FRONTEND=noninteractive DEBIAN_PRIORITY=critical APT_LISTCHANGES_FRONTEND=none apt-get update",
            args_debug: "[\"DEBIAN_FRONTEND=noninteractive\", \"DEBIAN_PRIORITY=critical\", \"APT_LISTCHANGES_FRONTEND=none\", \"apt-get\", \"update\"]",
        }
    } else {
        ShellCommand {
            program: "env",
            line: "env DEBIAN_FRONTEND=noninteractive DEBIAN_PRIORITY=critical APT_LISTCHANGES_FRONTEND=none apt-get -y -o Dpkg::Options::=--force-confdef -o Dpkg::Options::=--force-confold -o APT::Get::Always-Include-Phased-Updates=true --download-only dist-upgrade",
            args_debug: "[\"DEBIAN_FRONTEND=noninteractive\", \"DEBIAN_PRIORITY=critical\", \"APT_LISTCHANGES_FRONTEND=none\", \"apt-get\", \"-y\", \"-o\", \"Dpkg::Options::=--force-confdef\", \"-o\", \"Dpkg::Options::=--force-confold\", \"-o\", \"APT::Get::Always-Include-Phased-Updates=true\", \"--download-only\", \"dist-upgrade\"]",
        }
    }
}

/// The step name that a job's events carry.
pub open spec fn job_step(job: Job) -> Seq<char> {
    match job {
        Job::CheckRelease => "check-new-release"@,
        Job::CheckSources => "check-sources"@,
        Job::DisableThirdParty => "disable-third-party"@,
        Job::PreparePackages => "prepare-packages"@,
        Job::DryRunUpgrade => "dry-run-upgrade"@,
        Job::Schedule => "schedule-offline-upgrade"@,
        Job::Defer { .. } => "defer-notification"@,
    }
}

fn job_step_str(job: Job) -> (s: &'static str)
    ensures
        s@ == job_step(job),
{
    match job {
        Job::CheckRelease => "check-new-release",
        Job::CheckSources => "check-sources",
        Job::DisableThirdParty => "disable-third-party",
        Job::PreparePackages => "prepare-packages",
        Job::DryRunUpgrade => "dry-run-upgrade",
        Job::Schedule => "schedule-offline-upgrade",
        Job::Defer { .. } => "defer-notification",
    }
}

/// The jobs a command runs, in order.
pub open spec fn command_jobs(command: Command) -> Seq<Job> {
    match command {
        Command::CheckNewRelease => seq![Job::CheckRelease],
        Command::CheckSources => seq![Job::CheckSources],
        Command::DisableThirdParty => seq![Job::DisableThirdParty],
        Command::PreparePackages => seq![Job::PreparePackages],
        Command::DryRunUpgrade => seq![Job::DryRunUpgrade],
        Command::ScheduleOfflineUpgrade => seq![Job::Schedule],
        Command::RunAll => seq![
            Job::CheckRelease,
            Job::CheckSources,
            Job::DisableThirdParty,
            Job::PreparePackages,
            Job::Schedule,
        ],
        Command::Defer { period } => seq![Job::Defer { period }],
    }
}

// ---------------------------------------------------------------------------
// Fixed texts
// ---------------------------------------------------------------------------

pub open spec fn os_release_path() -> Seq<char> { "/etc/os-release"@ }
pub open spec fn stable_release_url() -> Seq<char> { "https://deb.debian.org/debian/dists/stable/Release"@ }
pub open spec fn testing_release_url() -> Seq<char> { "https://deb.debian.org/debian/dists/testing/Release"@ }
pub open spec fn debian_sources_path() -> Seq<char> { "/etc/apt/sources.list.d/debian.sources"@ }
pub open spec fn sources_list_path() -> Seq<char> { "/etc/apt/sources.list"@ }
pub open spec fn sources_bak_path() -> Seq<char> { "/etc/apt/sources.bak"@ }
pub open spec fn third_party_dir() -> Seq<char> { "/etc/apt/sources.list.d"@ }
pub open spec fn state_dir() -> Seq<char> { "/var/lib/debian-upgrade"@ }
pub open spec fn state_file() -> Seq<char> { "/var/lib/debian-upgrade/third-party-actions.log"@ }

/// The command scheduled to run after the reboot.
pub open spec fn reboot_command() -> Seq<char> {
    "env DEBIAN_FRONTEND=noninteractive DEBIAN_PRIORITY=critical APT_LISTCHANGES_FRONTEND=none apt-get -y -o Dpkg::Options::=--force-confdef -o Dpkg::Options::=--force-confold -o APT::Get::Always-Include-Phased-Updates=true dist-upgrade"@
}

pub open spec fn unexpected_reply() -> Seq<char> {
    "reponse inattendue du systeme"@
}

// ---------------------------------------------------------------------------
// State
// ---------------------------------------------------------------------------

/// A running task of the assistant.
pub struct Session {
    ctx: AppContext,
    run_all: bool,
    report_release: bool,
    job: Job,
    jobs: Vec<Job>,
    phase: Phase,
    current_major: u32,
    current_codename: Option<String>,
    stable_major: u32,
    stable_codename: String,
    release: Option<ReleaseCheckResult>,
    supports_modernize: bool,
    source_codename: String,
    target_codename: String,
    changed: usize,
    entries: Vec<DirEntry>,
    entry_index: usize,
    file_path: String,
    file_changed: usize,
    changed_files: usize,
    changed_entries: usize,
    already_disabled: usize,
    actions: Vec<String>,
    cmd_index: usize,
    splitter: LineSplitter,
    outcome: Outcome,
}

#[verifier::ext_equal]
pub struct SessionView {
    pub ctx: AppContext,
    pub run_all: bool,
    pub report_release: bool,
    pub job: Job,
    pub jobs: Seq<Job>,
    pub phase: Phase,
    pub current_major: u32,
    pub current_codename: Option<Seq<char>>,
    pub stable_major: u32,
    pub stable_codename: Seq<char>,
    pub release: Option<ReleaseCheckView>,
    pub supports_modernize: bool,
    pub source_codename: Seq<char>,
    pub target_codename: Seq<char>,
    pub changed: usize,
    pub entries: Seq<DirEntryView>,
    pub entry_index: usize,
    pub file_path: Seq<char>,
    pub file_changed: usize,
    pub changed_files: usize,
    pub changed_entries: usize,
    pub already_disabled: usize,
    pub actions: Seq<Seq<char>>,
    pub cmd_index: usize,
    pub pending: Seq<char>,
    pub outcome: OutcomeView,
}

pub open spec fn release_opt_view(o: Option<ReleaseCheckResult>) -> Option<ReleaseCheckView> {
    match o {
        Some(r) => Some(r@),
        None => None,
    }
}

impl View for Session {
    type V = SessionView;

    closed spec fn view(&self) -> SessionView {
        SessionView {
            ctx: self.ctx,
            run_all: self.run_all,
            report_release: self.report_release,
            job: self.job,
            jobs: self.jobs@,
            phase: self.phase,
            current_major: self.current_major,
            current_codename: opt_view(self.current_codename),
            stable_major: self.stable_major,
            stable_codename: self.stable_codename@,
            release: release_opt_view(self.release),
            supports_modernize: self.supports_modernize,
            source_codename: self.source_codename@,
            target_codename: self.target_codename@,
            changed: self.changed,
            entries: entries_view(self.entries@),
            entry_index: self.entry_index,
            file_path: self.file_path@,
            file_changed: self.file_changed,
            changed_files: self.changed_files,
            changed_entries: self.changed_entries,
            already_disabled: self.already_disabled,
            actions: self.actions.deep_view(),
            cmd_index: self.cmd_index,
            pending: self.splitter@,
            outcome: self.outcome@,
        }
    }
}

/// Where a new session for `command` starts.
pub open spec fn initial_view(ctx: AppContext, command: Command, report_release: bool) -> SessionView {
    SessionView {
        ctx,
        run_all: command == Command::RunAll,
        report_release,
        job: command_jobs(command)[0],
        jobs: command_jobs(command),
        phase: Phase::Start,
        current_major: 0,
        current_codename: None,
        stable_major: 0,
        stable_codename: seq![],
        release: None,
        supports_modernize: false,
        source_codename: seq![],
        target_codename: seq![],
        changed: 0,
        entries: seq![],
        entry_index: 0,
        file_path: seq![],
        file_changed: 0,
        changed_files: 0,
        changed_entries: 0,
        already_disabled: 0,
        actions: seq![],
        cmd_index: 0,
        pending: seq![],
        outcome: OutcomeView::Running,
    }
}

// ---------------------------------------------------------------------------
// Events
// ---------------------------------------------------------------------------

/// A debug event, present only in debug mode.
pub open spec fn debug_events(ctx: AppContext, step: Seq<char>, message: Seq<char>) -> Seq<EventView> {
    if ctx.debug {
        seq![ev(LogLevel::Debug, step, StepState::Pending, message)]
    } else {
        seq![]
    }
}

/// The start of a generic step: its description, then its planned actions
/// in debug mode.
pub open spec fn run_step_start(ctx: AppContext, step: Seq<char>, description: Seq<char>, planned: Seq<Seq<char>>) -> Seq<EventView> {
    seq![ev(LogLevel::Info, step, StepState::Running, description)] + if ctx.debug {
        planned.map_values(
            |a: Seq<char>| ev(LogLevel::Debug, step, StepState::Pending, "Action prévue: "@ + a),
        )
    } else {
        seq![]
    }
}

/// The end of a generic step.
pub open spec fn run_step_done(ctx: AppContext, step: Seq<char>) -> EventView {
    if ctx.dry_run {
        ev(
            LogLevel::Warn,
            step,
            StepState::Done,
            "Mode dry-run: aucune action système n'a été exécutée."@,
        )
    } else {
        ev(
            LogLevel::Success,
            step,
            StepState::Done,
            "Étape exécutée (implémentation système à brancher)."@,
        )
    }
}

pub open spec fn sources_planned(supports: bool) -> Seq<Seq<char>> {
    seq![
        "Inspecter /etc/apt/sources.list"@,
        "Inspecter /etc/apt/sources.list.d/*.list et *.sources"@,
        "Identifier le codename cible majeur"@,
        "Remplacer tous les codenames courants par le nouveau codename cible"@,
        if supports {
            "Moderniser les sources officielles: apt modernize-sources"@
        } else {
            "Fallback Debian 12: ignorer apt modernize-sources et normaliser manuellement les fichiers .list/.sources"@
        },
    ]
}

pub open spec fn schedule_planned() -> Seq<Seq<char>> {
    seq![
        "Préparer marqueur d'upgrade hors-ligne"@,
        "Configurer déclenchement au prochain reboot"@,
        "Journaliser l'intention d'upgrade"@,
        "Forcer le mode non interactif APT avec choix par défaut"@,
    ]
}

pub open spec fn compat_event(supports: bool) -> EventView {
    if supports {
        ev(
            LogLevel::Info,
            "check-sources"@,
            StepState::Pending,
            "Compatibilité APT: 'modernize-sources' disponible."@,
        )
    } else {
        ev(
            LogLevel::Warn,
            "check-sources"@,
            StepState::Pending,
            "Compatibilité APT: 'modernize-sources' non disponible (cas courant Debian 12), fallback manuel actif."@,
        )
    }
}

pub open spec fn third_party_running_event() -> EventView {
    ev(
        LogLevel::Info,
        "disable-third-party"@,
        StepState::Running,
        "Désactivation des sources tierces..."@,
    )
}

pub open spec fn release_running_event() -> EventView {
    ev(
        LogLevel::Info,
        "check-new-release"@,
        StepState::Running,
        "Verification en ligne de la nouvelle version majeure Debian..."@,
    )
}

pub open spec fn local_release_message(major: u32, codename: Option<Seq<char>>) -> Seq<char> {
    "Systeme local detecte: major="@ + decimal(major as nat) + ", codename="@ + debug_option_text(
        codename,
    )
}

pub open spec fn published_release_message(stable_major: u32, stable: Seq<char>, testing: Option<Seq<char>>) -> Seq<char> {
    "Debian releases: stable="@ + decimal(stable_major as nat) + " ("@ + stable + ") testing="@
        + debug_option_text(testing)
}

/// The verdict of the release check.
pub open spec fn release_verdict(ctx: AppContext, available: bool, stable_major: u32, stable: Seq<char>) -> EventView {
    if available {
        ev(
            LogLevel::Success,
            "check-new-release"@,
            StepState::Done,
            "Nouvelle version majeure disponible: "@ + decimal(stable_major as nat) + " ("@ + stable
                + ")"@,
        )
    } else if ctx.debug {
        ev(
            LogLevel::Warn,
            "check-new-release"@,
            StepState::Done,
            "Aucune nouvelle version majeure Debian disponible (stable "@ + decimal(
                stable_major as nat,
            ) + " - "@ + stable + "). Mode debug: poursuite autorisee pour tests."@,
        )
    } else {
        ev(
            LogLevel::Warn,
            "check-new-release"@,
            StepState::Done,
            "Aucune nouvelle version majeure Debian disponible. Version stable actuelle: "@
                + decimal(stable_major as nat) + " ("@ + stable + ")"@,
        )
    }
}

/// Report of the migration of `debian.sources`.
pub open spec fn deb822_migrated(ctx: AppContext, from: Seq<char>, to: Seq<char>, changed: usize, backed_up: bool) -> EventView {
    if ctx.dry_run {
        ev(
            LogLevel::Warn,
            "check-sources"@,
            StepState::Pending,
            "Debian 12 detectee: dry-run remplacement '"@ + from + "' -> '"@ + to
                + "' dans debian.sources ("@ + decimal(changed as nat)
                + " entree(s)); sources.list "@ + (if backed_up {
                "serait"@
            } else {
                "absent, pas de"@
            }) + " renomme en sources.bak."@,
        )
    } else {
        ev(
            LogLevel::Success,
            "check-sources"@,
            StepState::Done,
            "Debian 12 detectee: debian.sources migre '"@ + from + "' -> '"@ + to + "' ("@
                + decimal(changed as nat) + " entree(s)); sources.list "@ + (if backed_up {
                "a ete"@
            } else {
                "absent, pas de"@
            }) + " renomme en sources.bak."@,
        )
    }
}

/// Report of the migration of `sources.list`.
pub open spec fn list_migrated(ctx: AppContext, from: Seq<char>, to: Seq<char>, changed: usize) -> EventView {
    if ctx.dry_run {
        ev(
            LogLevel::Warn,
            "check-sources"@,
            StepState::Pending,
            "Debian 12 detectee: dry-run remplacement '"@ + from + "' -> '"@ + to
                + "' dans /etc/apt/sources.list ("@ + decimal(changed as nat)
                + " entree(s) ciblee(s))."@,
        )
    } else {
        ev(
            LogLevel::Success,
            "check-sources"@,
            StepState::Done,
            "Debian 12 detectee: /etc/apt/sources.list migre '"@ + from + "' -> '"@ + to + "' ("@
                + decimal(changed as nat) + " entree(s) modifiee(s))."@,
        )
    }
}

/// Report of one third-party file disabled.
pub open spec fn file_disabled(ctx: AppContext, path: Seq<char>, changed: usize) -> EventView {
    if ctx.dry_run {
        ev(
            LogLevel::Warn,
            "disable-third-party"@,
            StepState::Pending,
            "Dry-run: desactivation tierce prevue dans "@ + path + " ("@ + decimal(changed as nat)
                + " entree(s) modifiee(s))."@,
        )
    } else {
        ev(
            LogLevel::Info,
            "disable-third-party"@,
            StepState::Pending,
            "Depot tiers desactive dans "@ + path + " ("@ + decimal(changed as nat)
                + " entree(s) modifiee(s))."@,
        )
    }
}

/// Summary of the third-party step.
pub open spec fn third_party_summary(ctx: AppContext, files: usize, entries: usize) -> EventView {
    if ctx.dry_run {
        ev(
            LogLevel::Warn,
            "disable-third-party"@,
            StepState::Done,
            "Mode dry-run: "@ + decimal(files as nat) + " fichier(s) tiers seraient modifies ("@
                + decimal(entries as nat) + " entree(s) desactivee(s))."@,
        )
    } else {
        ev(
            LogLevel::Success,
            "disable-third-party"@,
            StepState::Done,
            decimal(files as nat) + " fichier(s) tiers modifies ("@ + decimal(entries as nat)
                + " entree(s) desactivee(s))."@,
        )
    }
}

/// The records persisted for a third-party run.
pub open spec fn persisted_lines(actions: Seq<Seq<char>>, files: usize, entries: usize, already: usize) -> Seq<Seq<char>> {
    seq!["disable-third-party|start"@] + actions + seq![
        "disable-third-party|summary|changed_files="@ + decimal(files as nat)
            + "|changed_entries="@ + decimal(entries as nat) + "|already_disabled_entries="@
            + decimal(already as nat),
    ]
}

/// Events a job reports when it starts.
pub open spec fn job_start_events(ctx: AppContext, job: Job) -> Seq<EventView> {
    match job {
        Job::PreparePackages => seq![
            ev(
                LogLevel::Info,
                "prepare-packages"@,
                StepState::Running,
                "Nettoyage cache APT et téléchargement des paquets..."@,
            ),
        ] + debug_events(ctx, "prepare-packages"@, "Commande: apt-get clean"@) + debug_events(
            ctx,
            "prepare-packages"@,
            "Commande: env DEBIAN_FRONTEND=noninteractive DEBIAN_PRIORITY=critical APT_LISTCHANGES_FRONTEND=none apt-get update"@,
        ) + debug_events(
            ctx,
            "prepare-packages"@,
            "Commande: env DEBIAN_FRONTEND=noninteractive DEBIAN_PRIORITY=critical APT_LISTCHANGES_FRONTEND=none apt-get -y -o Dpkg::Options::=--force-confdef -o Dpkg::Options::=--force-confold -o APT::Get::Always-Include-Phased-Updates=true --download-only dist-upgrade"@,
        ),
        Job::DryRunUpgrade => seq![
            ev(
                LogLevel::Info,
                "dry-run-upgrade"@,
                StepState::Running,
                "Test dry-run de la mise a niveau..."@,
            ),
        ] + debug_events(
            ctx,
            "dry-run-upgrade"@,
            "Commande: env DEBIAN_FRONTEND=noninteractive DEBIAN_PRIORITY=critical APT_LISTCHANGES_FRONTEND=none apt-get -s -o Dpkg::Options::=--force-confdef -o Dpkg::Options::=--force-confold dist-upgrade"@,
        ),
        _ => seq![],
    }
}

/// Event of a commands job that stopped short in dry-run mode.
pub open spec fn job_dry_run_event(job: Job) -> EventView {
    if job == Job::DryRunUpgrade {
        ev(
            LogLevel::Warn,
            "dry-run-upgrade"@,
            StepState::Done,
            "Mode dry-run: simulation uniquement, pas d'execution apt-get -s."@,
        )
    } else {
        ev(
            LogLevel::Warn,
            "prepare-packages"@,
            StepState::Done,
            "Mode dry-run: aucune action système n'a été exécutée."@,
        )
    }
}

/// Event of a commands job whose commands all succeeded.
pub open spec fn job_success_event(job: Job) -> EventView {
    if job == Job::DryRunUpgrade {
        ev(LogLevel::Success, "dry-run-upgrade"@, StepState::Done, "Dry-run upgrade valide."@)
    } else {
        ev(
            LogLevel::Success,
            "prepare-packages"@,
            StepState::Done,
            "Preparation des paquets terminee."@,
        )
    }
}

pub open spec fn defer_name(p: DeferPeriod) -> Seq<char> {
    match p {
        DeferPeriod::Day => "Day"@,
        DeferPeriod::Week => "Week"@,
        DeferPeriod::Month => "Month"@,
    }
}

pub open spec fn defer_message(p: DeferPeriod) -> Seq<char> {
    match p {
        DeferPeriod::Day => "Notification reportée de 1 jour."@,
        DeferPeriod::Week => "Notification reportée de 1 semaine."@,
        DeferPeriod::Month => "Notification reportée de 1 mois."@,
    }
}

/// Events of postponing the notification.
pub open spec fn defer_events(ctx: AppContext, p: DeferPeriod) -> Seq<EventView> {
    debug_events(ctx, "defer-notification"@, "Période choisie: "@ + defer_name(p)) + seq![
        if ctx.dry_run {
            ev(
                LogLevel::Warn,
                "defer-notification"@,
                StepState::Done,
                defer_message(p) + " (dry-run, non persisté)"@,
            )
        } else {
            ev(LogLevel::Info, "defer-notification"@, StepState::Done, defer_message(p))
        },
    ]
}

/// Events once the offline upgrade is scheduled.
pub open spec fn schedule_done_events(ctx: AppContext) -> Seq<EventView> {
    seq![run_step_done(ctx, "schedule-offline-upgrade"@)] + if ctx.dry_run {
        debug_events(
            ctx,
            "schedule-offline-upgrade"@,
            "Post-reboot (simulation): "@ + reboot_command(),
        )
    } else {
        seq![
            ev(
                LogLevel::Info,
                "schedule-offline-upgrade"@,
                StepState::Pending,
                "Commande planifiee au reboot: "@ + reboot_command(),
            ),
        ]
    }
}

pub open spec fn run_all_banner() -> EventView {
    ev(
        LogLevel::Info,
        "run-all"@,
        StepState::Running,
        "Démarrage du pipeline complet de préparation..."@,
    )
}

pub open spec fn run_all_done() -> EventView {
    ev(LogLevel::Success, "run-all"@, StepState::Done, "Pipeline de préparation terminé."@)
}

pub open spec fn run_all_stopped() -> EventView {
    ev(
        LogLevel::Warn,
        "run-all"@,
        StepState::Done,
        "Processus arrêté: aucune nouvelle version majeure Debian disponible."@,
    )
}

pub open spec fn run_all_bypass() -> EventView {
    ev(
        LogLevel::Warn,
        "run-all"@,
        StepState::Pending,
        "Bypass debug actif: poursuite du pipeline malgre absence de nouvelle version majeure."@,
    )
}

/// Lines of command output as events of `step`.
pub open spec fn output_events(step: Seq<char>, ls: Seq<Seq<char>>) -> Seq<EventView> {
    ls.map_values(|l: Seq<char>| ev(LogLevel::Info, step, StepState::Pending, l))
}

// ---------------------------------------------------------------------------
// Transitions
// ---------------------------------------------------------------------------

pub open spec fn act(events: Seq<EventView>, request: RequestView) -> ActionView {
    ActionView { events, request }
}

/// The session fails with `context` (and the cause reported by the system).
pub open spec fn fail(v: SessionView, events: Seq<EventView>, context: Seq<char>, cause: Option<Seq<char>>) -> (SessionView, ActionView) {
    (
        SessionView {
            phase: Phase::Done,
            outcome: OutcomeView::Failed(CoreErrorView { context, cause }),
            ..v
        },
        act(events, RequestView::Finish),
    )
}

/// The session ends well.
pub open spec fn finish_ok(v: SessionView, events: Seq<EventView>) -> (SessionView, ActionView) {
    (
        SessionView {
            phase: Phase::Done,
            outcome: if v.report_release && v.release is Some {
                OutcomeView::Released(v.release->0)
            } else {
                OutcomeView::Completed
            },
            ..v
        },
        act(events, RequestView::Finish),
    )
}

/// The current job is over: start the next one, or end the session.
pub open spec fn advance(v: SessionView, events: Seq<EventView>) -> (SessionView, ActionView)
    decreases v.jobs.len(), 0nat,
{
    if v.jobs.len() == 0 {
        finish_ok(v, events + if v.run_all { seq![run_all_done()] } else { seq![] })
    } else {
        begin(SessionView { jobs: v.jobs.drop_first(), ..v }, v.jobs[0], events)
    }
}

/// Starts `job` after the events already gathered in this step.
pub open spec fn begin(v: SessionView, job: Job, events: Seq<EventView>) -> (SessionView, ActionView)
    decreases v.jobs.len(), 1nat,
{
    let v = SessionView { job, ..v };
    match job {
        Job::CheckRelease => (
            SessionView { phase: Phase::RelOs, ..v },
            act(events.push(release_running_event()), RequestView::ReadFile(os_release_path())),
        ),
        Job::CheckSources => (SessionView { phase: Phase::SrcProbe, ..v }, act(events, RequestView::ProbeApt)),
        Job::DisableThirdParty => (
            SessionView {
                phase: Phase::TpList,
                changed_files: 0,
                changed_entries: 0,
                already_disabled: 0,
                actions: seq![],
                ..v
            },
            act(events.push(third_party_running_event()), RequestView::ListDir(third_party_dir())),
        ),
        Job::PreparePackages | Job::DryRunUpgrade => {
            let evs = events + job_start_events(v.ctx, job);
            if v.ctx.dry_run {
                advance(v, evs.push(job_dry_run_event(job)))
            } else {
                (
                    SessionView { phase: Phase::CmdRun, cmd_index: 0, pending: seq![], ..v },
                    act(evs, RequestView::Run(shell_line(command_spec(job, 0)))),
                )
            }
        },
        Job::Schedule => (
            SessionView { phase: Phase::SchSleep, ..v },
            act(
                events + run_step_start(
                    v.ctx,
                    "schedule-offline-upgrade"@,
                    "Planification de la mise à niveau hors-ligne au reboot..."@,
                    schedule_planned(),
                ),
                RequestView::Sleep(150),
            ),
        ),
        Job::Defer { period } => advance(v, events + defer_events(v.ctx, period)),
    }
}

/// The session stops on a reply that does not answer its request.
pub open spec fn unexpected(v: SessionView) -> (SessionView, ActionView) {
    fail(v, seq![], unexpected_reply(), None)
}

/// Failure to read `/etc/os-release` or to find its major version.
pub open spec fn os_release_failure(v: SessionView, e: OsReleaseError) -> (SessionView, ActionView) {
    match e {
        OsReleaseError::MissingVersionId => fail(
            v,
            seq![],
            "VERSION_ID introuvable dans /etc/os-release"@,
            None,
        ),
        OsReleaseError::BadMajor(e) => fail(
            v,
            seq![],
            "parse major VERSION_ID"@,
            Some(int_error_text(e)),
        ),
    }
}

/// Failure to download or read the `stable` Release file.
pub open spec fn stable_fetch_failure(v: SessionView, r: ReplyView) -> (SessionView, ActionView) {
    match r {
        ReplyView::Failed(IoStep::Open, d) => fail(v, seq![], "telechargement Release stable Debian"@, Some(d)),
        ReplyView::Failed(_, d) => fail(v, seq![], "lecture Release stable Debian"@, Some(d)),
        _ => unexpected(v),
    }
}

/// Failure to find the stable version or codename in its Release file.
pub open spec fn stable_parse_failure(v: SessionView, f: (Option<u32>, Option<Seq<char>>)) -> (SessionView, ActionView) {
    if f.0 is None {
        fail(
            v,
            seq![],
            "Impossible d'extraire la version Debian stable depuis dists/stable/Release"@,
            None,
        )
    } else {
        fail(
            v,
            seq![],
            "Impossible d'extraire le codename Debian stable depuis dists/stable/Release"@,
            None,
        )
    }
}

pub open spec fn on_rel_os(v: SessionView, r: ReplyView) -> (SessionView, ActionView) {
    match r {
        ReplyView::Text(c) => match os_release_spec(c) {
            Err(e) => os_release_failure(v, e),
            Ok((m, cn)) => (
                SessionView { phase: Phase::RelStable, current_major: m, current_codename: cn, ..v },
                act(
                    debug_events(v.ctx, "check-new-release"@, local_release_message(m, cn)),
                    RequestView::Fetch(stable_release_url()),
                ),
            ),
        },
        ReplyView::Failed(_, d) => fail(v, seq![], "lecture /etc/os-release"@, Some(d)),
        _ => unexpected(v),
    }
}

pub open spec fn on_rel_stable(v: SessionView, r: ReplyView) -> (SessionView, ActionView) {
    match r {
        ReplyView::Text(b) => {
            let f = release_fields(lines(b));
            if f.0 is Some && f.1 is Some {
                (
                    SessionView {
                        phase: Phase::RelTesting,
                        stable_major: f.0->0,
                        stable_codename: f.1->0,
                        ..v
                    },
                    act(seq![], RequestView::Fetch(testing_release_url())),
                )
            } else {
                stable_parse_failure(v, f)
            }
        },
        _ => stable_fetch_failure(v, r),
    }
}

pub open spec fn on_rel_testing(v: SessionView, r: ReplyView) -> (SessionView, ActionView) {
    if !(r is Text || r is Failed) {
        unexpected(v)
    } else {
        let testing = match r {
            ReplyView::Text(b) => first_codename(lines(b)),
            _ => None,
        };
        let available = v.stable_major > v.current_major;
        let events = debug_events(
            v.ctx,
            "check-new-release"@,
            published_release_message(v.stable_major, v.stable_codename, testing),
        ).push(release_verdict(v.ctx, available, v.stable_major, v.stable_codename));
        let v2 = SessionView {
            release: Some(
                ReleaseCheckView {
                    update_available: available,
                    current_major: v.current_major,
                    current_codename: v.current_codename,
                    stable_major: v.stable_major,
                    stable_codename: v.stable_codename,
                    testing_codename: testing,
                },
            ),
            ..v
        };
        if v.run_all && !available && !v.ctx.debug {
            finish_ok(v2, events.push(run_all_stopped()))
        } else if v.run_all && !available {
            advance(v2, events.push(run_all_bypass()))
        } else {
            advance(v2, events)
        }
    }
}

pub open spec fn probe_supports(r: ReplyView) -> bool {
    match r {
        ReplyView::Probe(ok, out, err) => ok && contains(out + "\n"@ + err, "modernize-sources"@),
        _ => false,
    }
}

pub open spec fn on_src_probe(v: SessionView, r: ReplyView) -> (SessionView, ActionView) {
    if !(r is Probe || r is Failed) {
        unexpected(v)
    } else {
        let supports = probe_supports(r);
        (
            SessionView { phase: Phase::SrcSleep, supports_modernize: supports, ..v },
            act(
                run_step_start(
                    v.ctx,
                    "check-sources"@,
                    "Vérification de la normalisation des sources APT..."@,
                    sources_planned(supports),
                ),
                RequestView::Sleep(150),
            ),
        )
    }
}

pub open spec fn on_src_sleep(v: SessionView, r: ReplyView) -> (SessionView, ActionView) {
    match r {
        ReplyView::Done => (
            SessionView { phase: Phase::SrcOs, ..v },
            act(
                seq![run_step_done(v.ctx, "check-sources"@), compat_event(v.supports_modernize)],
                RequestView::ReadFile(os_release_path()),
            ),
        ),
        _ => unexpected(v),
    }
}

pub open spec fn on_src_os(v: SessionView, r: ReplyView) -> (SessionView, ActionView) {
    match r {
        ReplyView::Text(c) => match os_release_spec(c) {
            Err(e) => os_release_failure(v, e),
            Ok((m, cn)) => if m == 12 && !v.supports_modernize {
                (
                    SessionView {
                        phase: Phase::SrcStable,
                        source_codename: match cn {
                            Some(c) => c,
                            None => "bookworm"@,
                        },
                        ..v
                    },
                    act(seq![], RequestView::Fetch(stable_release_url())),
                )
            } else {
                advance(v, seq![])
            },
        },
        ReplyView::Failed(_, d) => fail(v, seq![], "lecture /etc/os-release"@, Some(d)),
        _ => unexpected(v),
    }
}

pub open spec fn on_src_stable(v: SessionView, r: ReplyView) -> (SessionView, ActionView) {
    match r {
        ReplyView::Text(b) => {
            let f = release_fields(lines(b));
            if f.0 is Some && f.1 is Some {
                (
                    SessionView { phase: Phase::SrcTesting, target_codename: f.1->0, ..v },
                    act(seq![], RequestView::Fetch(testing_release_url())),
                )
            } else {
                stable_parse_failure(v, f)
            }
        },
        _ => stable_fetch_failure(v, r),
    }
}

pub open spec fn on_src_testing(v: SessionView, r: ReplyView) -> (SessionView, ActionView) {
    if r is Text || r is Failed {
        (
            SessionView { phase: Phase::SrcDeb822Exists, ..v },
            act(seq![], RequestView::PathExists(debian_sources_path())),
        )
    } else {
        unexpected(v)
    }
}

pub open spec fn on_src_deb822_exists(v: SessionView, r: ReplyView) -> (SessionView, ActionView) {
    match r {
        ReplyView::Flag(true) => (
            SessionView { phase: Phase::SrcDeb822Read, ..v },
            act(seq![], RequestView::ReadFile(debian_sources_path())),
        ),
        ReplyView::Flag(false) => (
            SessionView { phase: Phase::SrcListRead, ..v },
            act(seq![], RequestView::ReadFile(sources_list_path())),
        ),
        _ => unexpected(v),
    }
}

pub open spec fn on_src_deb822_read(v: SessionView, r: ReplyView) -> (SessionView, ActionView) {
    match r {
        ReplyView::Text(c) => {
            let w = rewrite_deb822_spec(c, v.source_codename, v.target_codename);
            if w.1 > 0 && !v.ctx.dry_run {
                (
                    SessionView { phase: Phase::SrcDeb822Write, changed: w.1 as usize, ..v },
                    act(seq![], RequestView::WriteFile(debian_sources_path(), w.0)),
                )
            } else {
                (
                    SessionView { phase: Phase::SrcListExists, changed: w.1 as usize, ..v },
                    act(seq![], RequestView::PathExists(sources_list_path())),
                )
            }
        },
        ReplyView::Failed(_, d) => fail(
            v,
            seq![],
            "lecture /etc/apt/sources.list.d/debian.sources"@,
            Some(d),
        ),
        _ => unexpected(v),
    }
}

pub open spec fn on_src_deb822_write(v: SessionView, r: ReplyView) -> (SessionView, ActionView) {
    match r {
        ReplyView::Done => (
            SessionView { phase: Phase::SrcListExists, ..v },
            act(seq![], RequestView::PathExists(sources_list_path())),
        ),
        ReplyView::Failed(_, d) => fail(
            v,
            seq![],
            "ecriture /etc/apt/sources.list.d/debian.sources"@,
            Some(d),
        ),
        _ => unexpected(v),
    }
}

pub open spec fn on_src_list_exists(v: SessionView, r: ReplyView) -> (SessionView, ActionView) {
    match r {
        ReplyView::Flag(exists) => if exists && !v.ctx.dry_run {
            (
                SessionView { phase: Phase::SrcRename, ..v },
                act(seq![], RequestView::Rename(sources_list_path(), sources_bak_path())),
            )
        } else {
            advance(
                v,
                seq![
                    deb822_migrated(
                        v.ctx,
                        v.source_codename,
                        v.target_codename,
                        v.changed,
                        exists,
                    ),
                ],
            )
        },
        _ => unexpected(v),
    }
}

pub open spec fn on_src_rename(v: SessionView, r: ReplyView) -> (SessionView, ActionView) {
    match r {
        ReplyView::Done => advance(
            v,
            seq![deb822_migrated(v.ctx, v.source_codename, v.target_codename, v.changed, true)],
        ),
        ReplyView::Failed(_, d) => fail(
            v,
            seq![],
            "rename /etc/apt/sources.list -> /etc/apt/sources.bak"@,
            Some(d),
        ),
        _ => unexpected(v),
    }
}

pub open spec fn on_src_list_read(v: SessionView, r: ReplyView) -> (SessionView, ActionView) {
    match r {
        ReplyView::Text(c) => {
            let w = rewrite_list_spec(c, v.source_codename, v.target_codename);
            let v2 = SessionView { changed: w.1 as usize, ..v };
            if w.1 > 0 && !v.ctx.dry_run {
                (
                    SessionView { phase: Phase::SrcListWrite, ..v2 },
                    act(seq![], RequestView::WriteFile(sources_list_path(), w.0)),
                )
            } else {
                advance(
                    v2,
                    seq![list_migrated(v.ctx, v.source_codename, v.target_codename, w.1 as usize)],
                )
            }
        },
        ReplyView::Failed(_, d) => fail(v, seq![], "lecture /etc/apt/sources.list"@, Some(d)),
        _ => unexpected(v),
    }
}

pub open spec fn on_src_list_write(v: SessionView, r: ReplyView) -> (SessionView, ActionView) {
    match r {
        ReplyView::Done => advance(
            v,
            seq![list_migrated(v.ctx, v.source_codename, v.target_codename, v.changed)],
        ),
        ReplyView::Failed(_, d) => fail(v, seq![], "ecriture /etc/apt/sources.list"@, Some(d)),
        _ => unexpected(v),
    }
}

/// A directory entry to disable: a regular file with a third-party name.
pub open spec fn wanted_entry(e: DirEntryView) -> bool {
    e.is_file && e.name is Some && is_candidate(e.name->0)
}

/// Index of the next third-party file at or after `i`, or the number of entries.
pub open spec fn next_candidate(es: Seq<DirEntryView>, i: int) -> int
    decreases es.len() - i,
{
    if i < 0 || i >= es.len() {
        es.len() as int
    } else if wanted_entry(es[i]) {
        i
    } else {
        next_candidate(es, i + 1)
    }
}

pub open spec fn third_party_path(name: Seq<char>) -> Seq<char> {
    third_party_dir() + "/"@ + name
}

/// After the third-party files are done: persist the records, or report.
pub open spec fn tp_finalize(v: SessionView, events: Seq<EventView>) -> (SessionView, ActionView) {
    if !v.ctx.dry_run && v.actions.len() > 0 {
        (SessionView { phase: Phase::TpDir, ..v }, act(events, RequestView::CreateDir(state_dir())))
    } else {
        advance(
            v,
            events.push(third_party_summary(v.ctx, v.changed_files, v.changed_entries)),
        )
    }
}

/// Moves to the next third-party file at or after `from`.
pub open spec fn tp_scan(v: SessionView, from: int, events: Seq<EventView>) -> (SessionView, ActionView) {
    let i = next_candidate(v.entries, from);
    if 0 <= i < v.entries.len() {
        let path = third_party_path(v.entries[i].name->0);
        (
            SessionView { phase: Phase::TpRead, entry_index: i as usize, file_path: path, ..v },
            act(events, RequestView::ReadFile(path)),
        )
    } else {
        tp_finalize(v, events)
    }
}

pub open spec fn on_tp_list(v: SessionView, r: ReplyView) -> (SessionView, ActionView) {
    match r {
        ReplyView::Entries(es) => tp_scan(SessionView { entries: es, ..v }, 0, seq![]),
        ReplyView::Failed(_, _) => advance(
            v,
            seq![
                ev(
                    LogLevel::Warn,
                    "disable-third-party"@,
                    StepState::Done,
                    "Aucun repertoire /etc/apt/sources.list.d accessible."@,
                ),
            ],
        ),
        _ => unexpected(v),
    }
}

pub open spec fn on_tp_read(v: SessionView, r: ReplyView) -> (SessionView, ActionView) {
    match r {
        ReplyView::Text(c) => {
            let i = v.entry_index as int;
            let name = if 0 <= i < v.entries.len() && v.entries[i].name is Some {
                v.entries[i].name->0
            } else {
                seq![]
            };
            let o = if is_deb822_name(name) {
                sources_disable_spec(c, v.file_path)
            } else {
                list_disable_spec(c, v.file_path)
            };
            let v2 = SessionView {
                already_disabled: v.already_disabled.saturating_add(o.2 as usize),
                actions: v.actions + o.3,
                ..v
            };
            if o.1 == 0 {
                tp_scan(v2, v.entry_index + 1, seq![])
            } else {
                let v3 = SessionView {
                    changed_files: v.changed_files.saturating_add(1),
                    changed_entries: v.changed_entries.saturating_add(o.1 as usize),
                    file_changed: o.1 as usize,
                    ..v2
                };
                if !v.ctx.dry_run {
                    (
                        SessionView { phase: Phase::TpWrite, ..v3 },
                        act(seq![], RequestView::WriteFile(v.file_path, o.0)),
                    )
                } else {
                    tp_scan(v3, v.entry_index + 1, seq![file_disabled(v.ctx, v.file_path, o.1 as usize)])
                }
            }
        },
        ReplyView::Failed(_, d) => fail(v, seq![], "lecture "@ + v.file_path, Some(d)),
        _ => unexpected(v),
    }
}

pub open spec fn on_tp_write(v: SessionView, r: ReplyView) -> (SessionView, ActionView) {
    match r {
        ReplyView::Done => tp_scan(
            v,
            v.entry_index + 1,
            seq![file_disabled(v.ctx, v.file_path, v.file_changed)],
        ),
        ReplyView::Failed(_, d) => fail(v, seq![], "ecriture "@ + v.file_path, Some(d)),
        _ => unexpected(v),
    }
}

pub open spec fn on_tp_dir(v: SessionView, r: ReplyView) -> (SessionView, ActionView) {
    match r {
        ReplyView::Done => (
            SessionView { phase: Phase::TpAppend, ..v },
            act(
                seq![],
                RequestView::AppendLines(
                    state_file(),
                    persisted_lines(
                        v.actions,
                        v.changed_files,
                        v.changed_entries,
                        v.already_disabled,
                    ),
                ),
            ),
        ),
        ReplyView::Failed(_, d) => fail(v, seq![], "creation "@ + state_dir(), Some(d)),
        _ => unexpected(v),
    }
}

pub open spec fn on_tp_append(v: SessionView, r: ReplyView) -> (SessionView, ActionView) {
    match r {
        ReplyView::Done => advance(
            v,
            seq![third_party_summary(v.ctx, v.changed_files, v.changed_entries)],
        ),
        ReplyView::Failed(IoStep::Open, d) => fail(v, seq![], "ouverture "@ + state_file(), Some(d)),
        ReplyView::Failed(_, d) => fail(v, seq![], "ecriture "@ + state_file(), Some(d)),
        _ => unexpected(v),
    }
}

pub open spec fn on_cmd_run(v: SessionView, r: ReplyView) -> (SessionView, ActionView) {
    let c = command_spec(v.job, v.cmd_index as nat);
    match r {
        ReplyView::Output(chunk) => {
            let s = split_output(v.pending, chunk);
            (
                SessionView { pending: s.1, ..v },
                act(output_events(job_step(v.job), s.0), RequestView::Continue),
            )
        },
        ReplyView::OutputEnd => (
            SessionView { phase: Phase::CmdWait, pending: seq![], ..v },
            act(
                match final_line(v.pending) {
                    Some(l) => seq![ev(LogLevel::Info, job_step(v.job), StepState::Pending, l)],
                    None => seq![],
                },
                RequestView::Continue,
            ),
        ),
        ReplyView::Failed(IoStep::Open, d) => fail(
            v,
            seq![],
            "execution "@ + c.program + " "@ + c.args_debug,
            Some(d),
        ),
        ReplyView::Failed(_, d) => fail(v, seq![], "lecture sortie commande: "@ + c.program, Some(d)),
        _ => unexpected(v),
    }
}

pub open spec fn on_cmd_wait(v: SessionView, r: ReplyView) -> (SessionView, ActionView) {
    let c = command_spec(v.job, v.cmd_index as nat);
    match r {
        ReplyView::Exited(true) => {
            let events = seq![
                ev(LogLevel::Info, job_step(v.job), StepState::Pending, "Commande OK: "@ + c.line),
            ];
            if v.cmd_index + 1 < command_count(v.job) {
                (
                    SessionView { phase: Phase::CmdRun, cmd_index: (v.cmd_index + 1) as usize, ..v },
                    act(
                        events,
                        RequestView::Run(shell_line(command_spec(v.job, (v.cmd_index + 1) as nat))),
                    ),
                )
            } else {
                advance(v, events.push(job_success_event(v.job)))
            }
        },
        ReplyView::Exited(false) => fail(v, seq![], "commande en echec: "@ + c.line, None),
        ReplyView::Failed(_, d) => fail(v, seq![], "attente fin commande"@, Some(d)),
        _ => unexpected(v),
    }
}

pub open spec fn on_sch_sleep(v: SessionView, r: ReplyView) -> (SessionView, ActionView) {
    match r {
        ReplyView::Done => advance(v, schedule_done_events(v.ctx)),
        _ => unexpected(v),
    }
}

/// The session's answer to `r`: its next state and action.
pub open spec fn step_spec(v: SessionView, r: ReplyView) -> (SessionView, ActionView) {
    match v.phase {
        Phase::Start => advance(v, if v.run_all { seq![run_all_banner()] } else { seq![] }),
        Phase::RelOs => on_rel_os(v, r),
        Phase::RelStable => on_rel_stable(v, r),
        Phase::RelTesting => on_rel_testing(v, r),
        Phase::SrcProbe => on_src_probe(v, r),
        Phase::SrcSleep => on_src_sleep(v, r),
        Phase::SrcOs => on_src_os(v, r),
        Phase::SrcStable => on_src_stable(v, r),
        Phase::SrcTesting => on_src_testing(v, r),
        Phase::SrcDeb822Exists => on_src_deb822_exists(v, r),
        Phase::SrcDeb822Read => on_src_deb822_read(v, r),
        Phase::SrcDeb822Write => on_src_deb822_write(v, r),
        Phase::SrcListExists => on_src_list_exists(v, r),
        Phase::SrcRename => on_src_rename(v, r),
        Phase::SrcListRead => on_src_list_read(v, r),
        Phase::SrcListWrite => on_src_list_write(v, r),
        Phase::TpList => on_tp_list(v, r),
        Phase::TpRead => on_tp_read(v, r),
        Phase::TpWrite => on_tp_write(v, r),
        Phase::TpDir => on_tp_dir(v, r),
        Phase::TpAppend => on_tp_append(v, r),
        Phase::CmdRun => on_cmd_run(v, r),
        Phase::CmdWait => on_cmd_wait(v, r),
        Phase::SchSleep => on_sch_sleep(v, r),
        Phase::Done => (v, act(seq![], RequestView::Finish)),
    }
}


// ---------------------------------------------------------------------------
// Event builders
// ---------------------------------------------------------------------------

/// Appends the debug event `message` when in debug mode.
fn push_debug(evs: &mut Vec<Event>, ctx: AppContext, step: &'static str, message: String)
    ensures
        events_view(final(evs)@) == events_view(old(evs)@) + debug_events(ctx, step@, message@),
{
    let ghost before = events_view(evs@);
    if ctx.debug {
        push_event(evs, event(LogLevel::Debug, step, StepState::Pending, message));
        proof {
            assert(events_view(evs@) =~= before + debug_events(ctx, step@, message@));
        }
    } else {
        proof {
            assert(events_view(evs@) =~= before + debug_events(ctx, step@, message@));
        }
    }
}

/// Appends the start of a generic step.
fn push_run_step_start(
    evs: &mut Vec<Event>,
    ctx: AppContext,
    step: &'static str,
    description: &str,
    planned: &Vec<String>,
)
    ensures
        events_view(final(evs)@) == events_view(old(evs)@) + run_step_start(
            ctx,
            step@,
            description@,
            planned.deep_view(),
        ),
{
    let ghost before = events_view(evs@);
    push_event(evs, event_str(LogLevel::Info, step, StepState::Running, description));
    let ghost f = |a: Seq<char>| ev(LogLevel::Debug, step@, StepState::Pending, "Action prévue: "@ + a);
    if ctx.debug {
        let mut k: usize = 0;
        while k < planned.len()
            invariant
                0 <= k <= planned.len(),
                ctx.debug,
                f == (|a: Seq<char>|
                    ev(LogLevel::Debug, step@, StepState::Pending, "Action prévue: "@ + a)),
                events_view(evs@) == before + seq![
                    ev(LogLevel::Info, step@, StepState::Running, description@),
                ] + planned.deep_view().take(k as int).map_values(f),
            decreases planned.len() - k,
        {
            let msg = string_of("Action prévue: ").concat(planned[k].as_str());
            push_event(evs, event(LogLevel::Debug, step, StepState::Pending, msg));
            proof {
                let pv = planned.deep_view();
                assert(pv.take(k + 1).map_values(f) =~= pv.take(k as int).map_values(f).push(
                    f(pv[k as int]),
                ));
            }
            k = k + 1;
        }
        proof {
            assert(planned.deep_view().take(planned.len() as int) =~= planned.deep_view());
        }
    } else {
        proof {
            assert(events_view(evs@) =~= before + run_step_start(
                ctx,
                step@,
                description@,
                planned.deep_view(),
            ));
        }
    }
}

fn ev_run_step_done(ctx: AppContext, step: &'static str) -> (e: Event)
    ensures
        e@ == run_step_done(ctx, step@),
{
    if ctx.dry_run {
        event_str(
            LogLevel::Warn,
            step,
            StepState::Done,
            "Mode dry-run: aucune action système n'a été exécutée.",
        )
    } else {
        event_str(
            LogLevel::Success,
            step,
            StepState::Done,
            "Étape exécutée (implémentation système à brancher).",
        )
    }
}

fn sources_planned_vec(supports: bool) -> (v: Vec<String>)
    ensures
        v.deep_view() == sources_planned(supports),
{
    let mut v: Vec<String> = Vec::new();
    v.push(string_of("Inspecter /etc/apt/sources.list"));
    v.push(string_of("Inspecter /etc/apt/sources.list.d/*.list et *.sources"));
    v.push(string_of("Identifier le codename cible majeur"));
    v.push(string_of("Remplacer tous les codenames courants par le nouveau codename cible"));
    if supports {
        v.push(string_of("Moderniser les sources officielles: apt modernize-sources"));
    } else {
        v.push(
            string_of(
                "Fallback Debian 12: ignorer apt modernize-sources et normaliser manuellement les fichiers .list/.sources",
            ),
        );
    }
    proof {
        assert(v.deep_view() =~= sources_planned(supports));
    }
    v
}

fn schedule_planned_vec() -> (v: Vec<String>)
    ensures
        v.deep_view() == schedule_planned(),
{
    let mut v: Vec<String> = Vec::new();
    v.push(string_of("Préparer marqueur d'upgrade hors-ligne"));
    v.push(string_of("Configurer déclenchement au prochain reboot"));
    v.push(string_of("Journaliser l'intention d'upgrade"));
    v.push(string_of("Forcer le mode non interactif APT avec choix par défaut"));
    proof {
        assert(v.deep_view() =~= schedule_planned());
    }
    v
}

fn ev_compat(supports: bool) -> (e: Event)
    ensures
        e@ == compat_event(supports),
{
    if supports {
        event_str(
            LogLevel::Info,
            "check-sources",
            StepState::Pending,
            "Compatibilité APT: 'modernize-sources' disponible.",
        )
    } else {
        event_str(
            LogLevel::Warn,
            "check-sources",
            StepState::Pending,
            "Compatibilité APT: 'modernize-sources' non disponible (cas courant Debian 12), fallback manuel actif.",
        )
    }
}

fn dec(n: u64) -> (s: String)
    ensures
        s@ == decimal(n as nat),
{
    decimal_string(n)
}

fn msg_local_release(major: u32, codename: &Option<String>) -> (s: String)
    ensures
        s@ == local_release_message(major, opt_view(*codename)),
{
    string_of("Systeme local detecte: major=").concat(dec(major as u64).as_str()).concat(
        ", codename=",
    ).concat(debug_option_string(codename).as_str())
}

fn msg_published_release(stable_major: u32, stable: &String, testing: &Option<String>) -> (s: String)
    ensures
        s@ == published_release_message(stable_major, stable@, opt_view(*testing)),
{
    string_of("Debian releases: stable=").concat(dec(stable_major as u64).as_str()).concat(
        " (",
    ).concat(stable.as_str()).concat(") testing=").concat(debug_option_string(testing).as_str())
}

fn ev_release_verdict(ctx: AppContext, available: bool, stable_major: u32, stable: &String) -> (e: Event)
    ensures
        e@ == release_verdict(ctx, available, stable_major, stable@),
{
    let d = dec(stable_major as u64);
    if available {
        event(
            LogLevel::Success,
            "check-new-release",
            StepState::Done,
            string_of("Nouvelle version majeure disponible: ").concat(d.as_str()).concat(
                " (",
            ).concat(stable.as_str()).concat(")"),
        )
    } else if ctx.debug {
        event(
            LogLevel::Warn,
            "check-new-release",
            StepState::Done,
            string_of("Aucune nouvelle version majeure Debian disponible (stable ").concat(
                d.as_str(),
            ).concat(" - ").concat(stable.as_str()).concat(
                "). Mode debug: poursuite autorisee pour tests.",
            ),
        )
    } else {
        event(
            LogLevel::Warn,
            "check-new-release",
            StepState::Done,
            string_of(
                "Aucune nouvelle version majeure Debian disponible. Version stable actuelle: ",
            ).concat(d.as_str()).concat(" (").concat(stable.as_str()).concat(")"),
        )
    }
}

fn ev_deb822_migrated(ctx: AppContext, from: &String, to: &String, changed: usize, backed_up: bool) -> (e: Event)
    ensures
        e@ == deb822_migrated(ctx, from@, to@, changed, backed_up),
{
    let d = dec(changed as u64);
    if ctx.dry_run {
        let tail = if backed_up {
            "serait"
        } else {
            "absent, pas de"
        };
        event(
            LogLevel::Warn,
            "check-sources",
            StepState::Pending,
            string_of("Debian 12 detectee: dry-run remplacement '").concat(from.as_str()).concat(
                "' -> '",
            ).concat(to.as_str()).concat("' dans debian.sources (").concat(d.as_str()).concat(
                " entree(s)); sources.list ",
            ).concat(tail).concat(" renomme en sources.bak."),
        )
    } else {
        let tail = if backed_up {
            "a ete"
        } else {
            "absent, pas de"
        };
        event(
            LogLevel::Success,
            "check-sources",
            StepState::Done,
            string_of("Debian 12 detectee: debian.sources migre '").concat(from.as_str()).concat(
                "' -> '",
            ).concat(to.as_str()).concat("' (").concat(d.as_str()).concat(
                " entree(s)); sources.list ",
            ).concat(tail).concat(" renomme en sources.bak."),
        )
    }
}

fn ev_list_migrated(ctx: AppContext, from: &String, to: &String, changed: usize) -> (e: Event)
    ensures
        e@ == list_migrated(ctx, from@, to@, changed),
{
    let d = dec(changed as u64);
    if ctx.dry_run {
        event(
            LogLevel::Warn,
            "check-sources",
            StepState::Pending,
            string_of("Debian 12 detectee: dry-run remplacement '").concat(from.as_str()).concat(
                "' -> '",
            ).concat(to.as_str()).concat("' dans /etc/apt/sources.list (").concat(
                d.as_str(),
            ).concat(" entree(s) ciblee(s))."),
        )
    } else {
        event(
            LogLevel::Success,
            "check-sources",
            StepState::Done,
            string_of("Debian 12 detectee: /etc/apt/sources.list migre '").concat(
                from.as_str(),
            ).concat("' -> '").concat(to.as_str()).concat("' (").concat(d.as_str()).concat(
                " entree(s) modifiee(s)).",
            ),
        )
    }
}

fn ev_file_disabled(ctx: AppContext, path: &String, changed: usize) -> (e: Event)
    ensures
        e@ == file_disabled(ctx, path@, changed),
{
    let d = dec(changed as u64);
    if ctx.dry_run {
        event(
            LogLevel::Warn,
            "disable-third-party",
            StepState::Pending,
            string_of("Dry-run: desactivation tierce prevue dans ").concat(path.as_str()).concat(
                " (",
            ).concat(d.as_str()).concat(" entree(s) modifiee(s))."),
        )
    } else {
        event(
            LogLevel::Info,
            "disable-third-party",
            StepState::Pending,
            string_of("Depot tiers desactive dans ").concat(path.as_str()).concat(" (").concat(
                d.as_str(),
            ).concat(" entree(s) modifiee(s))."),
        )
    }
}

fn ev_third_party_summary(ctx: AppContext, files: usize, entries: usize) -> (e: Event)
    ensures
        e@ == third_party_summary(ctx, files, entries),
{
    let f = dec(files as u64);
    let n = dec(entries as u64);
    if ctx.dry_run {
        event(
            LogLevel::Warn,
            "disable-third-party",
            StepState::Done,
            string_of("Mode dry-run: ").concat(f.as_str()).concat(
                " fichier(s) tiers seraient modifies (",
            ).concat(n.as_str()).concat(" entree(s) desactivee(s))."),
        )
    } else {
        event(
            LogLevel::Success,
            "disable-third-party",
            StepState::Done,
            f.concat(" fichier(s) tiers modifies (").concat(n.as_str()).concat(
                " entree(s) desactivee(s)).",
            ),
        )
    }
}

fn persisted_lines_vec(actions: &Vec<String>, files: usize, entries: usize, already: usize) -> (v: Vec<String>)
    ensures
        v.deep_view() == persisted_lines(actions.deep_view(), files, entries, already),
{
    let mut v: Vec<String> = Vec::new();
    v.push(string_of("disable-third-party|start"));
    let mut k: usize = 0;
    while k < actions.len()
        invariant
            0 <= k <= actions.len(),
            v.deep_view() == seq!["disable-third-party|start"@] + actions.deep_view().take(
                k as int,
            ),
        decreases actions.len() - k,
    {
        let ghost before = v.deep_view();
        v.push(actions[k].clone());
        proof {
            assert(actions.deep_view().take(k + 1) =~= actions.deep_view().take(k as int).push(
                actions.deep_view()[k as int],
            ));
            assert(v.deep_view() =~= before.push(actions.deep_view()[k as int]));
        }
        k = k + 1;
    }
    let summary = string_of("disable-third-party|summary|changed_files=").concat(
        dec(files as u64).as_str(),
    ).concat("|changed_entries=").concat(dec(entries as u64).as_str()).concat(
        "|already_disabled_entries=",
    ).concat(dec(already as u64).as_str());
    let ghost before = v.deep_view();
    v.push(summary);
    proof {
        assert(actions.deep_view().take(actions.len() as int) =~= actions.deep_view());
        assert(v.deep_view() =~= persisted_lines(actions.deep_view(), files, entries, already));
    }
    v
}

fn push_job_start_events(evs: &mut Vec<Event>, ctx: AppContext, job: Job)
    ensures
        events_view(final(evs)@) == events_view(old(evs)@) + job_start_events(ctx, job),
{
    let ghost before = events_view(evs@);
    if job == Job::PreparePackages {
        push_event(
            evs,
            event_str(
                LogLevel::Info,
                "prepare-packages",
                StepState::Running,
                "Nettoyage cache APT et téléchargement des paquets...",
            ),
        );
        push_debug(evs, ctx, "prepare-packages", string_of("Commande: apt-get clean"));
        push_debug(
            evs,
            ctx,
            "prepare-packages",
            string_of(
                "Commande: env DEBIAN_FRONTEND=noninteractive DEBIAN_PRIORITY=critical APT_LISTCHANGES_FRONTEND=none apt-get update",
            ),
        );
        push_debug(
            evs,
            ctx,
            "prepare-packages",
            string_of(
                "Commande: env DEBIAN_FRONTEND=noninteractive DEBIAN_PRIORITY=critical APT_LISTCHANGES_FRONTEND=none apt-get -y -o Dpkg::Options::=--force-confdef -o Dpkg::Options::=--force-confold -o APT::Get::Always-Include-Phased-Updates=true --download-only dist-upgrade",
            ),
        );
        proof {
            assert(events_view(evs@) =~= before + job_start_events(ctx, job));
        }
    } else if job == Job::DryRunUpgrade {
        push_event(
            evs,
            event_str(
                LogLevel::Info,
                "dry-run-upgrade",
                StepState::Running,
                "Test dry-run de la mise a niveau...",
            ),
        );
        push_debug(
            evs,
            ctx,
            "dry-run-upgrade",
            string_of(
                "Commande: env DEBIAN_FRONTEND=noninteractive DEBIAN_PRIORITY=critical APT_LISTCHANGES_FRONTEND=none apt-get -s -o Dpkg::Options::=--force-confdef -o Dpkg::Options::=--force-confold dist-upgrade",
            ),
        );
        proof {
            assert(events_view(evs@) =~= before + job_start_events(ctx, job));
        }
    } else {
        proof {
            assert(events_view(evs@) =~= before + job_start_events(ctx, job));
        }
    }
}

fn ev_job_dry_run(job: Job) -> (e: Event)
    ensures
        e@ == job_dry_run_event(job),
{
    if job == Job::DryRunUpgrade {
        event_str(
            LogLevel::Warn,
            "dry-run-upgrade",
            StepState::Done,
            "Mode dry-run: simulation uniquement, pas d'execution apt-get -s.",
        )
    } else {
        event_str(
            LogLevel::Warn,
            "prepare-packages",
            StepState::Done,
            "Mode dry-run: aucune action système n'a été exécutée.",
        )
    }
}

fn ev_job_success(job: Job) -> (e: Event)
    ensures
        e@ == job_success_event(job),
{
    if job == Job::DryRunUpgrade {
        event_str(LogLevel::Success, "dry-run-upgrade", StepState::Done, "Dry-run upgrade valide.")
    } else {
        event_str(
            LogLevel::Success,
            "prepare-packages",
            StepState::Done,
            "Preparation des paquets terminee.",
        )
    }
}

fn push_defer_events(evs: &mut Vec<Event>, ctx: AppContext, p: DeferPeriod)
    ensures
        events_view(final(evs)@) == events_view(old(evs)@) + defer_events(ctx, p),
{
    let ghost before = events_view(evs@);
    let (name, message) = match p {
        DeferPeriod::Day => ("Day", "Notification reportée de 1 jour."),
        DeferPeriod::Week => ("Week", "Notification reportée de 1 semaine."),
        DeferPeriod::Month => ("Month", "Notification reportée de 1 mois."),
    };
    push_debug(evs, ctx, "defer-notification", string_of("Période choisie: ").concat(name));
    if ctx.dry_run {
        push_event(
            evs,
            event(
                LogLevel::Warn,
                "defer-notification",
                StepState::Done,
                string_of(message).concat(" (dry-run, non persisté)"),
            ),
        );
    } else {
        push_event(evs, event_str(LogLevel::Info, "defer-notification", StepState::Done, message));
    }
    proof {
        assert(events_view(evs@) =~= before + defer_events(ctx, p));
    }
}

fn push_schedule_done_events(evs: &mut Vec<Event>, ctx: AppContext)
    ensures
        events_view(final(evs)@) == events_view(old(evs)@) + schedule_done_events(ctx),
{
    let ghost before = events_view(evs@);
    push_event(evs, ev_run_step_done(ctx, "schedule-offline-upgrade"));
    let reboot = string_of(
        "env DEBIAN_FRONTEND=noninteractive DEBIAN_PRIORITY=critical APT_LISTCHANGES_FRONTEND=none apt-get -y -o Dpkg::Options::=--force-confdef -o Dpkg::Options::=--force-confold -o APT::Get::Always-Include-Phased-Updates=true dist-upgrade",
    );
    if ctx.dry_run {
        push_debug(
            evs,
            ctx,
            "schedule-offline-upgrade",
            string_of("Post-reboot (simulation): ").concat(reboot.as_str()),
        );
    } else {
        push_event(
            evs,
            event(
                LogLevel::Info,
                "schedule-offline-upgrade",
                StepState::Pending,
                string_of("Commande planifiee au reboot: ").concat(reboot.as_str()),
            ),
        );
    }
    proof {
        assert(events_view(evs@) =~= before + schedule_done_events(ctx));
    }
}

/// Appends `Info` events of `step` for the given output lines.
fn push_output_events(evs: &mut Vec<Event>, step: &'static str, ls: Vec<String>)
    ensures
        events_view(final(evs)@) == events_view(old(evs)@) + output_events(step@, ls.deep_view()),
{
    let ghost before = events_view(evs@);
    let ghost f = |l: Seq<char>| ev(LogLevel::Info, step@, StepState::Pending, l);
    let mut k: usize = 0;
    while k < ls.len()
        invariant
            0 <= k <= ls.len(),
            f == (|l: Seq<char>| ev(LogLevel::Info, step@, StepState::Pending, l)),
            events_view(evs@) == before + ls.deep_view().take(k as int).map_values(f),
        decreases ls.len() - k,
    {
        push_event(evs, event(LogLevel::Info, step, StepState::Pending, ls[k].clone()));
        proof {
            let lv = ls.deep_view();
            assert(lv.take(k + 1).map_values(f) =~= lv.take(k as int).map_values(f).push(
                f(lv[k as int]),
            ));
        }
        k = k + 1;
    }
    proof {
        assert(ls.deep_view().take(ls.len() as int) =~= ls.deep_view());
    }
}


// ---------------------------------------------------------------------------
// Executable state machine
// ---------------------------------------------------------------------------

fn clone_opt(o: &Option<String>) -> (r: Option<String>)
    ensures
        opt_view(r) == opt_view(*o),
{
    match o {
        Some(s) => Some(s.clone()),
        None => None,
    }
}

fn clone_release(r: &ReleaseCheckResult) -> (c: ReleaseCheckResult)
    ensures
        c@ == r@,
{
    ReleaseCheckResult {
        update_available: r.update_available,
        current_major: r.current_major,
        current_codename: clone_opt(&r.current_codename),
        stable_major: r.stable_major,
        stable_codename: r.stable_codename.clone(),
        testing_codename: clone_opt(&r.testing_codename),
    }
}

fn jobs_of(command: Command) -> (v: Vec<Job>)
    ensures
        v@ == command_jobs(command),
{
    let mut v: Vec<Job> = Vec::new();
    match command {
        Command::CheckNewRelease => v.push(Job::CheckRelease),
        Command::CheckSources => v.push(Job::CheckSources),
        Command::DisableThirdParty => v.push(Job::DisableThirdParty),
        Command::PreparePackages => v.push(Job::PreparePackages),
        Command::DryRunUpgrade => v.push(Job::DryRunUpgrade),
        Command::ScheduleOfflineUpgrade => v.push(Job::Schedule),
        Command::RunAll => {
            v.push(Job::CheckRelease);
            v.push(Job::CheckSources);
            v.push(Job::DisableThirdParty);
            v.push(Job::PreparePackages);
            v.push(Job::Schedule);
        },
        Command::Defer { period } => v.push(Job::Defer { period }),
    }
    proof {
        assert(v@ =~= command_jobs(command));
    }
    v
}

impl Session {
    fn start(ctx: AppContext, command: Command, report_release: bool) -> (s: Session)
        ensures
            s@ == initial_view(ctx, command, report_release),
    {
        let jobs = jobs_of(command);
        let s = Session {
            ctx,
            run_all: command == Command::RunAll,
            report_release,
            job: jobs[0],
            jobs,
            phase: Phase::Start,
            current_major: 0,
            current_codename: None,
            stable_major: 0,
            stable_codename: String::new(),
            release: None,
            supports_modernize: false,
            source_codename: String::new(),
            target_codename: String::new(),
            changed: 0,
            entries: Vec::new(),
            entry_index: 0,
            file_path: String::new(),
            file_changed: 0,
            changed_files: 0,
            changed_entries: 0,
            already_disabled: 0,
            actions: Vec::new(),
            cmd_index: 0,
            splitter: LineSplitter::new(),
            outcome: Outcome::Running,
        };
        proof {
            assert(s.actions.deep_view() =~= Seq::<Seq<char>>::empty());
            assert(entries_view(s.entries@) =~= Seq::<DirEntryView>::empty());
            assert(s@ =~= initial_view(ctx, command, report_release));
        }
        s
    }

    /// The context the session runs with.
    pub fn context(&self) -> (c: AppContext)
        ensures
            c == self@.ctx,
    {
        self.ctx
    }

    /// How the session ended, or `Running`.
    pub fn outcome(&self) -> (o: &Outcome)
        ensures
            o@ == self@.outcome,
    {
        &self.outcome
    }

    fn fail(&mut self, events: Vec<Event>, context: String, cause: Option<String>) -> (a: Action)
        ensures
            (final(self)@, a@) == fail(old(self)@, events_view(events@), context@, opt_view(cause)),
    {
        self.phase = Phase::Done;
        self.outcome = Outcome::Failed(CoreError { context, cause });
        Action { events, request: Request::Finish }
    }

    fn fail_str(&mut self, context: &str, cause: Option<String>) -> (a: Action)
        ensures
            (final(self)@, a@) == fail(old(self)@, seq![], context@, opt_view(cause)),
    {
        let events: Vec<Event> = Vec::new();
        proof {
            assert(events_view(events@) =~= Seq::<EventView>::empty());
        }
        self.fail(events, string_of(context), cause)
    }

    fn unexpected(&mut self) -> (a: Action)
        ensures
            (final(self)@, a@) == unexpected(old(self)@),
    {
        self.fail_str("reponse inattendue du systeme", None)
    }

    fn finish_ok(&mut self, events: Vec<Event>) -> (a: Action)
        ensures
            (final(self)@, a@) == finish_ok(old(self)@, events_view(events@)),
    {
        self.phase = Phase::Done;
        let out = if self.report_release {
            match &self.release {
                Some(r) => Outcome::Released(clone_release(r)),
                None => Outcome::Completed,
            }
        } else {
            Outcome::Completed
        };
        self.outcome = out;
        Action { events, request: Request::Finish }
    }

    /// Starts `job`; gives its action, or, when the job is over at once,
    /// the events gathered so far.
    fn begin(&mut self, job: Job, events: Vec<Event>) -> (r: Result<Action, Vec<Event>>)
        ensures
            match r {
                Ok(a) => (final(self)@, a@) == begin(old(self)@, job, events_view(events@)),
                Err(evs) => begin(old(self)@, job, events_view(events@)) == advance(
                    final(self)@,
                    events_view(evs@),
                ) && final(self)@.jobs == old(self)@.jobs,
            },
    {
        let mut events = events;
        let ghost ev0 = events_view(events@);
        self.job = job;
        match job {
            Job::CheckRelease => {
                self.phase = Phase::RelOs;
                push_event(
                    &mut events,
                    event_str(
                        LogLevel::Info,
                        "check-new-release",
                        StepState::Running,
                        "Verification en ligne de la nouvelle version majeure Debian...",
                    ),
                );
                Ok(Action { events, request: Request::ReadFile { path: string_of("/etc/os-release") } })
            },
            Job::CheckSources => {
                self.phase = Phase::SrcProbe;
                Ok(Action { events, request: Request::ProbeApt })
            },
            Job::DisableThirdParty => {
                self.phase = Phase::TpList;
                self.changed_files = 0;
                self.changed_entries = 0;
                self.already_disabled = 0;
                self.actions = Vec::new();
                proof {
                    assert(self.actions.deep_view() =~= Seq::<Seq<char>>::empty());
                }
                push_event(
                    &mut events,
                    event_str(
                        LogLevel::Info,
                        "disable-third-party",
                        StepState::Running,
                        "Désactivation des sources tierces...",
                    ),
                );
                Ok(
                    Action {
                        events,
                        request: Request::ListDir { path: string_of("/etc/apt/sources.list.d") },
                    },
                )
            },
            Job::PreparePackages | Job::DryRunUpgrade => {
                push_job_start_events(&mut events, self.ctx, job);
                if self.ctx.dry_run {
                    push_event(&mut events, ev_job_dry_run(job));
                    Err(events)
                } else {
                    self.phase = Phase::CmdRun;
                    self.cmd_index = 0;
                    self.splitter = LineSplitter::new();
                    let c = command_at(job, 0);
                    let command = string_of(c.line).concat(" 2>&1");
                    Ok(Action { events, request: Request::Run { command } })
                }
            },
            Job::Schedule => {
                self.phase = Phase::SchSleep;
                let planned = schedule_planned_vec();
                push_run_step_start(
                    &mut events,
                    self.ctx,
                    "schedule-offline-upgrade",
                    "Planification de la mise à niveau hors-ligne au reboot...",
                    &planned,
                );
                Ok(Action { events, request: Request::Sleep { millis: 150 } })
            },
            Job::Defer { period } => {
                push_defer_events(&mut events, self.ctx, period);
                Err(events)
            },
        }
    }

    /// The current job is over: starts the next one, or ends the session.
    fn advance(&mut self, events: Vec<Event>) -> (a: Action)
        ensures
            (final(self)@, a@) == advance(old(self)@, events_view(events@)),
    {
        proof {
            assert(self@ == old(self)@);
        }
        let ghost target = advance(self@, events_view(events@));
        let mut evs = events;
        loop
            invariant
                advance(self@, events_view(evs@)) == target,
                target == advance(old(self)@, events_view(events@)),
            decreases self@.jobs.len(),
        {
            if self.jobs.len() == 0 {
                proof {
                    assert(advance(self@, events_view(evs@)) == finish_ok(
                        self@,
                        events_view(evs@) + if self@.run_all {
                            seq![run_all_done()]
                        } else {
                            seq![]
                        },
                    ));
                }
                if self.run_all {
                    let ghost before = events_view(evs@);
                    push_event(
                        &mut evs,
                        event_str(
                            LogLevel::Success,
                            "run-all",
                            StepState::Done,
                            "Pipeline de préparation terminé.",
                        ),
                    );
                    proof {
                        assert(events_view(evs@) =~= before + seq![run_all_done()]);
                    }
                } else {
                    proof {
                        assert(events_view(evs@) + Seq::<EventView>::empty() =~= events_view(
                            evs@,
                        ));
                    }
                }
                return self.finish_ok(evs);
            }
            let ghost v0 = self@;
            let job = self.jobs.remove(0);
            proof {
                assert(self@ =~= SessionView { jobs: v0.jobs.drop_first(), ..v0 });
                assert(job == v0.jobs[0]);
                assert(advance(v0, events_view(evs@)) == begin(self@, job, events_view(evs@)));
            }
            match self.begin(job, evs) {
                Ok(a) => {
                    return a;
                },
                Err(e2) => {
                    evs = e2;
                },
            }
        }
    }
}


/// No events.
fn no_events() -> (v: Vec<Event>)
    ensures
        events_view(v@) == Seq::<EventView>::empty(),
{
    let v: Vec<Event> = Vec::new();
    proof {
        assert(events_view(v@) =~= Seq::<EventView>::empty());
    }
    v
}

/// Only the debug event `message`, in debug mode.
fn debug_only(ctx: AppContext, step: &'static str, message: String) -> (v: Vec<Event>)
    ensures
        events_view(v@) == debug_events(ctx, step@, message@),
{
    let mut v = no_events();
    push_debug(&mut v, ctx, step, message);
    proof {
        assert(events_view(v@) =~= debug_events(ctx, step@, message@));
    }
    v
}

/// A single event.
fn one_event(e: Event) -> (v: Vec<Event>)
    ensures
        events_view(v@) == seq![e@],
{
    let mut v = no_events();
    push_event(&mut v, e);
    proof {
        assert(events_view(v@) =~= seq![e@]);
    }
    v
}

impl Session {
    fn os_release_failure(&mut self, e: OsReleaseError) -> (a: Action)
        ensures
            (final(self)@, a@) == os_release_failure(old(self)@, e),
    {
        match e {
            OsReleaseError::MissingVersionId => self.fail_str(
                "VERSION_ID introuvable dans /etc/os-release",
                None,
            ),
            OsReleaseError::BadMajor(k) => self.fail_str(
                "parse major VERSION_ID",
                Some(string_of(int_error_str(k))),
            ),
        }
    }

    fn stable_fetch_failure(&mut self, r: Reply) -> (a: Action)
        ensures
            (final(self)@, a@) == stable_fetch_failure(old(self)@, r@),
    {
        match r {
            Reply::Failed { at: IoStep::Open, detail } => self.fail_str(
                "telechargement Release stable Debian",
                Some(detail),
            ),
            Reply::Failed { at: _, detail } => self.fail_str(
                "lecture Release stable Debian",
                Some(detail),
            ),
            _ => self.unexpected(),
        }
    }

    fn stable_parse_failure(&mut self, major: Option<u32>) -> (a: Action)
        ensures
            forall|c: Option<Seq<char>>|
                (final(self)@, a@) == #[trigger] stable_parse_failure(old(self)@, (major, c)),
    {
        if major.is_none() {
            self.fail_str(
                "Impossible d'extraire la version Debian stable depuis dists/stable/Release",
                None,
            )
        } else {
            self.fail_str(
                "Impossible d'extraire le codename Debian stable depuis dists/stable/Release",
                None,
            )
        }
    }

    fn on_rel_os(&mut self, r: Reply) -> (a: Action)
        ensures
            (final(self)@, a@) == on_rel_os(old(self)@, r@),
    {
        match r {
            Reply::Text(c) => match parse_os_release(c.as_str()) {
                Err(e) => self.os_release_failure(e),
                Ok((m, cn)) => {
                    let msg = msg_local_release(m, &cn);
                    self.phase = Phase::RelStable;
                    self.current_major = m;
                    self.current_codename = cn;
                    let events = debug_only(self.ctx, "check-new-release", msg);
                    Action {
                        events,
                        request: Request::Fetch {
                            url: string_of("https://deb.debian.org/debian/dists/stable/Release"),
                        },
                    }
                },
            },
            Reply::Failed { at: _, detail } => self.fail_str("lecture /etc/os-release", Some(detail)),
            _ => self.unexpected(),
        }
    }

    fn on_rel_stable(&mut self, r: Reply) -> (a: Action)
        ensures
            (final(self)@, a@) == on_rel_stable(old(self)@, r@),
    {
        match r {
            Reply::Text(b) => {
                let (m, c) = parse_stable_release(b.as_str());
                match (m, c) {
                    (Some(m), Some(c)) => {
                        self.phase = Phase::RelTesting;
                        self.stable_major = m;
                        self.stable_codename = c;
                        Action {
                            events: no_events(),
                            request: Request::Fetch {
                                url: string_of("https://deb.debian.org/debian/dists/testing/Release"),
                            },
                        }
                    },
                    (m, _) => self.stable_parse_failure(m),
                }
            },
            other => self.stable_fetch_failure(other),
        }
    }

    fn on_rel_testing(&mut self, r: Reply) -> (a: Action)
        ensures
            (final(self)@, a@) == on_rel_testing(old(self)@, r@),
    {
        let testing = match r {
            Reply::Text(b) => parse_testing_codename(b.as_str()),
            Reply::Failed { .. } => None,
            _ => {
                return self.unexpected();
            },
        };
        let ghost v = self@;
        let available = self.stable_major > self.current_major;
        let mut events = debug_only(
            self.ctx,
            "check-new-release",
            msg_published_release(self.stable_major, &self.stable_codename, &testing),
        );
        push_event(
            &mut events,
            ev_release_verdict(self.ctx, available, self.stable_major, &self.stable_codename),
        );
        self.release = Some(
            ReleaseCheckResult {
                update_available: available,
                current_major: self.current_major,
                current_codename: clone_opt(&self.current_codename),
                stable_major: self.stable_major,
                stable_codename: self.stable_codename.clone(),
                testing_codename: testing,
            },
        );
        if self.run_all && !available && !self.ctx.debug {
            push_event(
                &mut events,
                event_str(
                    LogLevel::Warn,
                    "run-all",
                    StepState::Done,
                    "Processus arrêté: aucune nouvelle version majeure Debian disponible.",
                ),
            );
            self.finish_ok(events)
        } else if self.run_all && !available {
            push_event(
                &mut events,
                event_str(
                    LogLevel::Warn,
                    "run-all",
                    StepState::Pending,
                    "Bypass debug actif: poursuite du pipeline malgre absence de nouvelle version majeure.",
                ),
            );
            self.advance(events)
        } else {
            self.advance(events)
        }
    }
}


impl Session {
    fn on_src_probe(&mut self, r: Reply) -> (a: Action)
        ensures
            (final(self)@, a@) == on_src_probe(old(self)@, r@),
    {
        let supports = match r {
            Reply::Probe { success, stdout, stderr } => {
                if success {
                    let combined = stdout.concat("\n").concat(stderr.as_str());
                    contains_text(&chars_of(combined.as_str()), &chars_of("modernize-sources"))
                } else {
                    false
                }
            },
            Reply::Failed { .. } => false,
            _ => {
                return self.unexpected();
            },
        };
        self.phase = Phase::SrcSleep;
        self.supports_modernize = supports;
        let planned = sources_planned_vec(supports);
        let mut events = no_events();
        push_run_step_start(
            &mut events,
            self.ctx,
            "check-sources",
            "Vérification de la normalisation des sources APT...",
            &planned,
        );
        proof {
            assert(events_view(events@) =~= run_step_start(
                self.ctx,
                "check-sources"@,
                "Vérification de la normalisation des sources APT..."@,
                sources_planned(supports),
            ));
        }
        Action { events, request: Request::Sleep { millis: 150 } }
    }

    fn on_src_sleep(&mut self, r: Reply) -> (a: Action)
        ensures
            (final(self)@, a@) == on_src_sleep(old(self)@, r@),
    {
        match r {
            Reply::Done => {
                self.phase = Phase::SrcOs;
                let mut events = one_event(ev_run_step_done(self.ctx, "check-sources"));
                push_event(&mut events, ev_compat(self.supports_modernize));
                proof {
                    assert(events_view(events@) =~= seq![
                        run_step_done(self.ctx, "check-sources"@),
                        compat_event(self.supports_modernize),
                    ]);
                }
                Action { events, request: Request::ReadFile { path: string_of("/etc/os-release") } }
            },
            _ => self.unexpected(),
        }
    }

    fn on_src_os(&mut self, r: Reply) -> (a: Action)
        ensures
            (final(self)@, a@) == on_src_os(old(self)@, r@),
    {
        match r {
            Reply::Text(c) => match parse_os_release(c.as_str()) {
                Err(e) => self.os_release_failure(e),
                Ok((m, cn)) => {
                    if m == 12 && !self.supports_modernize {
                        self.phase = Phase::SrcStable;
                        self.source_codename = match cn {
                            Some(c) => c,
                            None => string_of("bookworm"),
                        };
                        Action {
                            events: no_events(),
                            request: Request::Fetch {
                                url: string_of("https://deb.debian.org/debian/dists/stable/Release"),
                            },
                        }
                    } else {
                        self.advance(no_events())
                    }
                },
            },
            Reply::Failed { at: _, detail } => self.fail_str("lecture /etc/os-release", Some(detail)),
            _ => self.unexpected(),
        }
    }

    fn on_src_stable(&mut self, r: Reply) -> (a: Action)
        ensures
            (final(self)@, a@) == on_src_stable(old(self)@, r@),
    {
        match r {
            Reply::Text(b) => {
                let (m, c) = parse_stable_release(b.as_str());
                match (m, c) {
                    (Some(_), Some(c)) => {
                        self.phase = Phase::SrcTesting;
                        self.target_codename = c;
                        Action {
                            events: no_events(),
                            request: Request::Fetch {
                                url: string_of("https://deb.debian.org/debian/dists/testing/Release"),
                            },
                        }
                    },
                    (m, _) => self.stable_parse_failure(m),
                }
            },
            other => self.stable_fetch_failure(other),
        }
    }

    fn on_src_testing(&mut self, r: Reply) -> (a: Action)
        ensures
            (final(self)@, a@) == on_src_testing(old(self)@, r@),
    {
        match r {
            Reply::Text(_) | Reply::Failed { .. } => {
                self.phase = Phase::SrcDeb822Exists;
                Action {
                    events: no_events(),
                    request: Request::PathExists {
                        path: string_of("/etc/apt/sources.list.d/debian.sources"),
                    },
                }
            },
            _ => self.unexpected(),
        }
    }

    fn on_src_deb822_exists(&mut self, r: Reply) -> (a: Action)
        ensures
            (final(self)@, a@) == on_src_deb822_exists(old(self)@, r@),
    {
        match r {
            Reply::Flag(true) => {
                self.phase = Phase::SrcDeb822Read;
                Action {
                    events: no_events(),
                    request: Request::ReadFile {
                        path: string_of("/etc/apt/sources.list.d/debian.sources"),
                    },
                }
            },
            Reply::Flag(false) => {
                self.phase = Phase::SrcListRead;
                Action {
                    events: no_events(),
                    request: Request::ReadFile { path: string_of("/etc/apt/sources.list") },
                }
            },
            _ => self.unexpected(),
        }
    }

    fn on_src_deb822_read(&mut self, r: Reply) -> (a: Action)
        ensures
            (final(self)@, a@) == on_src_deb822_read(old(self)@, r@),
    {
        match r {
            Reply::Text(c) => {
                let (out, n) = rewrite_debian_sources(
                    c.as_str(),
                    self.source_codename.as_str(),
                    self.target_codename.as_str(),
                );
                self.changed = n;
                if n > 0 && !self.ctx.dry_run {
                    self.phase = Phase::SrcDeb822Write;
                    Action {
                        events: no_events(),
                        request: Request::WriteFile {
                            path: string_of("/etc/apt/sources.list.d/debian.sources"),
                            content: out,
                        },
                    }
                } else {
                    self.phase = Phase::SrcListExists;
                    Action {
                        events: no_events(),
                        request: Request::PathExists { path: string_of("/etc/apt/sources.list") },
                    }
                }
            },
            Reply::Failed { at: _, detail } => self.fail_str(
                "lecture /etc/apt/sources.list.d/debian.sources",
                Some(detail),
            ),
            _ => self.unexpected(),
        }
    }

    fn on_src_deb822_write(&mut self, r: Reply) -> (a: Action)
        ensures
            (final(self)@, a@) == on_src_deb822_write(old(self)@, r@),
    {
        match r {
            Reply::Done => {
                self.phase = Phase::SrcListExists;
                Action {
                    events: no_events(),
                    request: Request::PathExists { path: string_of("/etc/apt/sources.list") },
                }
            },
            Reply::Failed { at: _, detail } => self.fail_str(
                "ecriture /etc/apt/sources.list.d/debian.sources",
                Some(detail),
            ),
            _ => self.unexpected(),
        }
    }

    fn on_src_list_exists(&mut self, r: Reply) -> (a: Action)
        ensures
            (final(self)@, a@) == on_src_list_exists(old(self)@, r@),
    {
        match r {
            Reply::Flag(exists) => {
                if exists && !self.ctx.dry_run {
                    self.phase = Phase::SrcRename;
                    Action {
                        events: no_events(),
                        request: Request::Rename {
                            from: string_of("/etc/apt/sources.list"),
                            to: string_of("/etc/apt/sources.bak"),
                        },
                    }
                } else {
                    let e = ev_deb822_migrated(
                        self.ctx,
                        &self.source_codename,
                        &self.target_codename,
                        self.changed,
                        exists,
                    );
                    self.advance(one_event(e))
                }
            },
            _ => self.unexpected(),
        }
    }

    fn on_src_rename(&mut self, r: Reply) -> (a: Action)
        ensures
            (final(self)@, a@) == on_src_rename(old(self)@, r@),
    {
        match r {
            Reply::Done => {
                let e = ev_deb822_migrated(
                    self.ctx,
                    &self.source_codename,
                    &self.target_codename,
                    self.changed,
                    true,
                );
                self.advance(one_event(e))
            },
            Reply::Failed { at: _, detail } => self.fail_str(
                "rename /etc/apt/sources.list -> /etc/apt/sources.bak",
                Some(detail),
            ),
            _ => self.unexpected(),
        }
    }

    fn on_src_list_read(&mut self, r: Reply) -> (a: Action)
        ensures
            (final(self)@, a@) == on_src_list_read(old(self)@, r@),
    {
        match r {
            Reply::Text(c) => {
                let (out, n) = rewrite_sources_list(
                    c.as_str(),
                    self.source_codename.as_str(),
                    self.target_codename.as_str(),
                );
                self.changed = n;
                if n > 0 && !self.ctx.dry_run {
                    self.phase = Phase::SrcListWrite;
                    Action {
                        events: no_events(),
                        request: Request::WriteFile {
                            path: string_of("/etc/apt/sources.list"),
                            content: out,
                        },
                    }
                } else {
                    let e = ev_list_migrated(
                        self.ctx,
                        &self.source_codename,
                        &self.target_codename,
                        n,
                    );
                    self.advance(one_event(e))
                }
            },
            Reply::Failed { at: _, detail } => self.fail_str(
                "lecture /etc/apt/sources.list",
                Some(detail),
            ),
            _ => self.unexpected(),
        }
    }

    fn on_src_list_write(&mut self, r: Reply) -> (a: Action)
        ensures
            (final(self)@, a@) == on_src_list_write(old(self)@, r@),
    {
        match r {
            Reply::Done => {
                let e = ev_list_migrated(
                    self.ctx,
                    &self.source_codename,
                    &self.target_codename,
                    self.changed,
                );
                self.advance(one_event(e))
            },
            Reply::Failed { at: _, detail } => self.fail_str(
                "ecriture /etc/apt/sources.list",
                Some(detail),
            ),
            _ => self.unexpected(),
        }
    }
}


/// The entry is a regular file with a third-party name.
fn is_wanted(e: &DirEntry) -> (b: bool)
    ensures
        b == wanted_entry(e@),
{
    if !e.is_file {
        return false;
    }
    match &e.name {
        Some(n) => third_party_candidate(n.as_str()),
        None => false,
    }
}

/// Where the next third-party file is found.
proof fn lemma_next_candidate(es: Seq<DirEntryView>, i: int)
    ensures
        0 <= next_candidate(es, i) <= es.len(),
        next_candidate(es, i) < es.len() ==> wanted_entry(es[next_candidate(es, i)]),
    decreases es.len() - i,
{
    if 0 <= i < es.len() && !wanted_entry(es[i]) {
        lemma_next_candidate(es, i + 1);
    }
}

fn next_candidate_index(entries: &Vec<DirEntry>, from: usize) -> (r: usize)
    ensures
        r as int == next_candidate(entries_view(entries@), from as int),
{
    let ghost es = entries_view(entries@);
    let mut i = from;
    while i < entries.len()
        invariant
            es == entries_view(entries@),
            next_candidate(es, i as int) == next_candidate(es, from as int),
        decreases entries.len() - i,
    {
        if is_wanted(&entries[i]) {
            return i;
        }
        i = i + 1;
    }
    entries.len()
}

/// The index after `i`, or the length once past the end: both start the
/// same scan.
fn next_index(entries: &Vec<DirEntry>, i: usize) -> (r: usize)
    ensures
        next_candidate(entries_view(entries@), r as int) == next_candidate(
            entries_view(entries@),
            i + 1,
        ),
{
    if i < entries.len() {
        i + 1
    } else {
        entries.len()
    }
}

fn append_all(dst: &mut Vec<String>, src: Vec<String>)
    ensures
        final(dst).deep_view() == old(dst).deep_view() + src.deep_view(),
{
    let ghost d0 = dst.deep_view();
    let mut k: usize = 0;
    while k < src.len()
        invariant
            0 <= k <= src.len(),
            dst.deep_view() == d0 + src.deep_view().take(k as int),
        decreases src.len() - k,
    {
        let ghost before = dst.deep_view();
        dst.push(src[k].clone());
        proof {
            assert(src.deep_view().take(k + 1) =~= src.deep_view().take(k as int).push(
                src.deep_view()[k as int],
            ));
            assert(dst.deep_view() =~= before.push(src.deep_view()[k as int]));
        }
        k = k + 1;
    }
    proof {
        assert(src.deep_view().take(src.len() as int) =~= src.deep_view());
    }
}

impl Session {
    fn tp_finalize(&mut self, events: Vec<Event>) -> (a: Action)
        ensures
            (final(self)@, a@) == tp_finalize(old(self)@, events_view(events@)),
    {
        if !self.ctx.dry_run && self.actions.len() > 0 {
            self.phase = Phase::TpDir;
            Action { events, request: Request::CreateDir { path: string_of("/var/lib/debian-upgrade") } }
        } else {
            let mut events = events;
            push_event(
                &mut events,
                ev_third_party_summary(self.ctx, self.changed_files, self.changed_entries),
            );
            self.advance(events)
        }
    }

    fn tp_scan(&mut self, from: usize, events: Vec<Event>) -> (a: Action)
        ensures
            (final(self)@, a@) == tp_scan(old(self)@, from as int, events_view(events@)),
    {
        let i = next_candidate_index(&self.entries, from);
        proof {
            lemma_next_candidate(self@.entries, from as int);
        }
        if i < self.entries.len() {
            let name = match &self.entries[i].name {
                Some(n) => n.clone(),
                None => String::new(),
            };
            let path = string_of("/etc/apt/sources.list.d").concat("/").concat(name.as_str());
            self.phase = Phase::TpRead;
            self.entry_index = i;
            self.file_path = path.clone();
            Action { events, request: Request::ReadFile { path } }
        } else {
            self.tp_finalize(events)
        }
    }

    fn on_tp_list(&mut self, r: Reply) -> (a: Action)
        ensures
            (final(self)@, a@) == on_tp_list(old(self)@, r@),
    {
        match r {
            Reply::Entries(es) => {
                self.entries = es;
                self.tp_scan(0, no_events())
            },
            Reply::Failed { .. } => {
                let e = event_str(
                    LogLevel::Warn,
                    "disable-third-party",
                    StepState::Done,
                    "Aucun repertoire /etc/apt/sources.list.d accessible.",
                );
                self.advance(one_event(e))
            },
            _ => self.unexpected(),
        }
    }

    fn on_tp_read(&mut self, r: Reply) -> (a: Action)
        ensures
            (final(self)@, a@) == on_tp_read(old(self)@, r@),
    {
        match r {
            Reply::Text(c) => {
                let name = if self.entry_index < self.entries.len() {
                    match &self.entries[self.entry_index].name {
                        Some(n) => n.clone(),
                        None => String::new(),
                    }
                } else {
                    String::new()
                };
                let o = if is_deb822_file(name.as_str()) {
                    disable_sources_entries(c.as_str(), self.file_path.as_str())
                } else {
                    disable_list_repo_lines(c.as_str(), self.file_path.as_str())
                };
                let next = next_index(&self.entries, self.entry_index);
                self.already_disabled = self.already_disabled.saturating_add(o.already_disabled);
                append_all(&mut self.actions, o.actions);
                if o.changed == 0 {
                    self.tp_scan(next, no_events())
                } else {
                    self.changed_files = self.changed_files.saturating_add(1);
                    self.changed_entries = self.changed_entries.saturating_add(o.changed);
                    self.file_changed = o.changed;
                    if !self.ctx.dry_run {
                        self.phase = Phase::TpWrite;
                        Action {
                            events: no_events(),
                            request: Request::WriteFile {
                                path: self.file_path.clone(),
                                content: o.content,
                            },
                        }
                    } else {
                        let e = ev_file_disabled(self.ctx, &self.file_path, o.changed);
                        self.tp_scan(next, one_event(e))
                    }
                }
            },
            Reply::Failed { at: _, detail } => {
                let context = string_of("lecture ").concat(self.file_path.as_str());
                self.fail(no_events(), context, Some(detail))
            },
            _ => self.unexpected(),
        }
    }

    fn on_tp_write(&mut self, r: Reply) -> (a: Action)
        ensures
            (final(self)@, a@) == on_tp_write(old(self)@, r@),
    {
        match r {
            Reply::Done => {
                let next = next_index(&self.entries, self.entry_index);
                let e = ev_file_disabled(self.ctx, &self.file_path, self.file_changed);
                self.tp_scan(next, one_event(e))
            },
            Reply::Failed { at: _, detail } => {
                let context = string_of("ecriture ").concat(self.file_path.as_str());
                self.fail(no_events(), context, Some(detail))
            },
            _ => self.unexpected(),
        }
    }

    fn on_tp_dir(&mut self, r: Reply) -> (a: Action)
        ensures
            (final(self)@, a@) == on_tp_dir(old(self)@, r@),
    {
        match r {
            Reply::Done => {
                self.phase = Phase::TpAppend;
                let lines = persisted_lines_vec(
                    &self.actions,
                    self.changed_files,
                    self.changed_entries,
                    self.already_disabled,
                );
                Action {
                    events: no_events(),
                    request: Request::AppendLines {
                        path: string_of("/var/lib/debian-upgrade/third-party-actions.log"),
                        lines,
                    },
                }
            },
            Reply::Failed { at: _, detail } => {
                let context = string_of("creation ").concat("/var/lib/debian-upgrade");
                self.fail(no_events(), context, Some(detail))
            },
            _ => self.unexpected(),
        }
    }

    fn on_tp_append(&mut self, r: Reply) -> (a: Action)
        ensures
            (final(self)@, a@) == on_tp_append(old(self)@, r@),
    {
        match r {
            Reply::Done => {
                let e = ev_third_party_summary(self.ctx, self.changed_files, self.changed_entries);
                self.advance(one_event(e))
            },
            Reply::Failed { at: IoStep::Open, detail } => {
                let context = string_of("ouverture ").concat(
                    "/var/lib/debian-upgrade/third-party-actions.log",
                );
                self.fail(no_events(), context, Some(detail))
            },
            Reply::Failed { at: _, detail } => {
                let context = string_of("ecriture ").concat(
                    "/var/lib/debian-upgrade/third-party-actions.log",
                );
                self.fail(no_events(), context, Some(detail))
            },
            _ => self.unexpected(),
        }
    }
}


fn command_count_of(job: Job) -> (n: usize)
    ensures
        n as nat == command_count(job),
{
    match job {
        Job::PreparePackages => 3,
        Job::DryRunUpgrade => 1,
        _ => 0,
    }
}

impl Session {
    fn on_cmd_run(&mut self, r: Reply) -> (a: Action)
        ensures
            (final(self)@, a@) == on_cmd_run(old(self)@, r@),
    {
        let c = command_at(self.job, self.cmd_index);
        let step = job_step_str(self.job);
        match r {
            Reply::Output(chunk) => {
                let ls = self.splitter.feed(chunk.as_str());
                let mut events = no_events();
                push_output_events(&mut events, step, ls);
                proof {
                    assert(events_view(events@) =~= output_events(
                        job_step(self.job),
                        split_output(old(self)@.pending, chunk@).0,
                    ));
                }
                Action { events, request: Request::Continue }
            },
            Reply::OutputEnd => {
                let last = self.splitter.finish();
                self.splitter = LineSplitter::new();
                self.phase = Phase::CmdWait;
                let events = match last {
                    Some(l) => one_event(event(LogLevel::Info, step, StepState::Pending, l)),
                    None => no_events(),
                };
                Action { events, request: Request::Continue }
            },
            Reply::Failed { at: IoStep::Open, detail } => {
                let context = string_of("execution ").concat(c.program).concat(" ").concat(
                    c.args_debug,
                );
                self.fail(no_events(), context, Some(detail))
            },
            Reply::Failed { at: _, detail } => {
                let context = string_of("lecture sortie commande: ").concat(c.program);
                self.fail(no_events(), context, Some(detail))
            },
            _ => self.unexpected(),
        }
    }

    fn on_cmd_wait(&mut self, r: Reply) -> (a: Action)
        ensures
            (final(self)@, a@) == on_cmd_wait(old(self)@, r@),
    {
        let c = command_at(self.job, self.cmd_index);
        let step = job_step_str(self.job);
        match r {
            Reply::Exited { success: true } => {
                let mut events = one_event(
                    event(LogLevel::Info, step, StepState::Pending, string_of("Commande OK: ").concat(c.line)),
                );
                let n = command_count_of(self.job);
                if n > 0 && self.cmd_index < n - 1 {
                    self.cmd_index = self.cmd_index + 1;
                    self.phase = Phase::CmdRun;
                    let next = command_at(self.job, self.cmd_index);
                    let command = string_of(next.line).concat(" 2>&1");
                    Action { events, request: Request::Run { command } }
                } else {
                    push_event(&mut events, ev_job_success(self.job));
                    self.advance(events)
                }
            },
            Reply::Exited { success: false } => {
                let context = string_of("commande en echec: ").concat(c.line);
                self.fail(no_events(), context, None)
            },
            Reply::Failed { at: _, detail } => self.fail_str("attente fin commande", Some(detail)),
            _ => self.unexpected(),
        }
    }

    fn on_sch_sleep(&mut self, r: Reply) -> (a: Action)
        ensures
            (final(self)@, a@) == on_sch_sleep(old(self)@, r@),
    {
        match r {
            Reply::Done => {
                let mut events = no_events();
                push_schedule_done_events(&mut events, self.ctx);
                proof {
                    assert(events_view(events@) =~= schedule_done_events(self.ctx));
                }
                self.advance(events)
            },
            _ => self.unexpected(),
        }
    }

    /// Takes the reply to the previous request (`Reply::Start` at first) and
    /// gives the events to report and the next request.
    pub fn step(&mut self, reply: Reply) -> (a: Action)
        ensures
            (final(self)@, a@) == step_spec(old(self)@, reply@),
    {
        match self.phase {
            Phase::Start => {
                let events = if self.run_all {
                    one_event(
                        event_str(
                            LogLevel::Info,
                            "run-all",
                            StepState::Running,
                            "Démarrage du pipeline complet de préparation...",
                        ),
                    )
                } else {
                    no_events()
                };
                self.advance(events)
            },
            Phase::RelOs => self.on_rel_os(reply),
            Phase::RelStable => self.on_rel_stable(reply),
            Phase::RelTesting => self.on_rel_testing(reply),
            Phase::SrcProbe => self.on_src_probe(reply),
            Phase::SrcSleep => self.on_src_sleep(reply),
            Phase::SrcOs => self.on_src_os(reply),
            Phase::SrcStable => self.on_src_stable(reply),
            Phase::SrcTesting => self.on_src_testing(reply),
            Phase::SrcDeb822Exists => self.on_src_deb822_exists(reply),
            Phase::SrcDeb822Read => self.on_src_deb822_read(reply),
            Phase::SrcDeb822Write => self.on_src_deb822_write(reply),
            Phase::SrcListExists => self.on_src_list_exists(reply),
            Phase::SrcRename => self.on_src_rename(reply),
            Phase::SrcListRead => self.on_src_list_read(reply),
            Phase::SrcListWrite => self.on_src_list_write(reply),
            Phase::TpList => self.on_tp_list(reply),
            Phase::TpRead => self.on_tp_read(reply),
            Phase::TpWrite => self.on_tp_write(reply),
            Phase::TpDir => self.on_tp_dir(reply),
            Phase::TpAppend => self.on_tp_append(reply),
            Phase::CmdRun => self.on_cmd_run(reply),
            Phase::CmdWait => self.on_cmd_wait(reply),
            Phase::SchSleep => self.on_sch_sleep(reply),
            Phase::Done => Action { events: no_events(), request: Request::Finish },
        }
    }
}


// ---------------------------------------------------------------------------
// Entry points
// ---------------------------------------------------------------------------

/// Starts the session that runs `command`; drive it with `Session::step`,
/// beginning with `Reply::Start`, until it requests `Finish`.
pub fn run_command(ctx: AppContext, command: Command) -> (s: Session)
    ensures
        s@ == initial_view(ctx, command, false),
{
    Session::start(ctx, command, false)
}

/// Starts the session that checks online for a new major Debian release;
/// once it is over, its outcome is `Released` with the result, or `Failed`.
pub fn check_new_major_release(ctx: AppContext) -> (s: Session)
    ensures
        s@ == initial_view(ctx, Command::CheckNewRelease, true),
{
    Session::start(ctx, Command::CheckNewRelease, true)
}

pub open spec fn bool_text(b: bool) -> Seq<char> {
    if b {
        "true"@
    } else {
        "false"@
    }
}

pub open spec fn bootstrap_message(ctx: AppContext) -> Seq<char> {
    "Contexte: dry_run="@ + bool_text(ctx.dry_run) + ", debug="@ + bool_text(ctx.debug)
}

fn bool_str(b: bool) -> (s: &'static str)
    ensures
        s@ == bool_text(b),
{
    if b {
        "true"
    } else {
        "false"
    }
}

/// The events that open a run: the context, in debug mode.
pub fn emit_bootstrap(ctx: AppContext) -> (v: Vec<Event>)
    ensures
        events_view(v@) == debug_events(ctx, "bootstrap"@, bootstrap_message(ctx)),
{
    let message = string_of("Contexte: dry_run=").concat(bool_str(ctx.dry_run)).concat(
        ", debug=",
    ).concat(bool_str(ctx.debug));
    debug_only(ctx, "bootstrap", message)
}

} // verus!
