use upgrade_core::model::event;
use upgrade_core::protocol::{CoreError, DirEntry, IoStep, Outcome, Reply, Request};
use upgrade_core::release::{parse_os_release, parse_stable_release, parse_testing_codename, IntError, OsReleaseError};
use upgrade_core::sources::{rewrite_debian_sources, rewrite_sources_list};
use upgrade_core::stream::LineSplitter;
use upgrade_core::third_party::{disable_list_repo_lines, disable_sources_entries, is_deb822_file, offered_source, third_party_candidate};
use upgrade_core::{
    check_new_major_release, emit_bootstrap, run_command, AppContext, Command, DeferPeriod, Event,
    LogLevel, Session, StepState,
};

const OS_RELEASE_12: &str = "PRETTY_NAME=\"Debian GNU/Linux 12 (bookworm)\"\nNAME=\"Debian GNU/Linux\"\nVERSION_ID=\"12\"\nVERSION=\"12 (bookworm)\"\nVERSION_CODENAME=bookworm\nID=debian\n";
const STABLE_RELEASE: &str = "Origin: Debian\nLabel: Debian\nSuite: stable\nVersion: 13.1\nCodename: trixie\nDate: Sat, 06 Sep 2025 09:00:00 UTC\n";
const TESTING_RELEASE: &str = "Origin: Debian\nSuite: testing\nCodename: forky\n";

fn text(s: &str) -> Reply {
    Reply::Text(s.to_string())
}

fn level_step_message(e: &Event) -> (LogLevel, &'static str, StepState, String) {
    (e.level, e.step, e.state, e.message.clone())
}

#[test]
fn defer_periods_are_supported() {
    let ctx = AppContext { dry_run: true, debug: true };

    for period in [DeferPeriod::Day, DeferPeriod::Week, DeferPeriod::Month] {
        let mut events = Vec::<Event>::new();
        let mut session = run_command(ctx, Command::Defer { period });
        let action = session.step(Reply::Start);
        events.extend(action.events);
        assert!(matches!(action.request, Request::Finish), "defer should work");
        assert!(matches!(session.outcome(), Outcome::Completed), "defer should work");
        assert!(!events.is_empty());
    }
}

#[test]
fn defer_messages_follow_the_mode() {
    let mut s = run_command(AppContext { dry_run: false, debug: false }, Command::Defer { period: DeferPeriod::Week });
    let a = s.step(Reply::Start);
    assert_eq!(a.events.len(), 1);
    assert_eq!(
        level_step_message(&a.events[0]),
        (LogLevel::Info, "defer-notification", StepState::Done, "Notification reportée de 1 semaine.".to_string())
    );

    let mut s = run_command(AppContext { dry_run: true, debug: true }, Command::Defer { period: DeferPeriod::Month });
    let a = s.step(Reply::Start);
    assert_eq!(a.events.len(), 2);
    assert_eq!(
        level_step_message(&a.events[0]),
        (LogLevel::Debug, "defer-notification", StepState::Pending, "Période choisie: Month".to_string())
    );
    assert_eq!(
        level_step_message(&a.events[1]),
        (LogLevel::Warn, "defer-notification", StepState::Done, "Notification reportée de 1 mois. (dry-run, non persisté)".to_string())
    );
    assert!(matches!(a.request, Request::Finish));
}

#[test]
fn bootstrap_reports_the_context_in_debug_mode_only() {
    let v = emit_bootstrap(AppContext { dry_run: true, debug: true });
    assert_eq!(v.len(), 1);
    assert_eq!(
        level_step_message(&v[0]),
        (LogLevel::Debug, "bootstrap", StepState::Pending, "Contexte: dry_run=true, debug=true".to_string())
    );
    assert!(emit_bootstrap(AppContext { dry_run: true, debug: false }).is_empty());
}

#[test]
fn events_carry_an_rfc3339_timestamp() {
    let e = event(LogLevel::Info, "x", StepState::Running, "m".to_string());
    assert!(chrono::DateTime::parse_from_rfc3339(&e.timestamp).is_ok());
    assert_eq!(e.message, "m");
}

#[test]
fn os_release_gives_major_and_codename() {
    assert_eq!(parse_os_release(OS_RELEASE_12), Ok((12, Some("bookworm".to_string()))));
    assert_eq!(parse_os_release("VERSION_ID=\"12.5\"\nVERSION_CODENAME=\n"), Ok((12, None)));
    assert_eq!(parse_os_release("VERSION_ID=11\nVERSION_CODENAME=\"bullseye\"\n"), Ok((11, Some("bullseye".to_string()))));
    assert_eq!(parse_os_release("NAME=Debian\n"), Err(OsReleaseError::MissingVersionId));
    assert_eq!(parse_os_release("VERSION_ID=\"abc\"\n"), Err(OsReleaseError::BadMajor(IntError::InvalidDigit)));
    assert_eq!(parse_os_release("VERSION_ID=\"\"\n"), Err(OsReleaseError::BadMajor(IntError::Empty)));
    assert_eq!(parse_os_release("VERSION_ID=+\n"), Err(OsReleaseError::BadMajor(IntError::InvalidDigit)));
    assert_eq!(parse_os_release("VERSION_ID=4294967296x\n"), Err(OsReleaseError::BadMajor(IntError::PosOverflow)));
    assert_eq!(parse_os_release("VERSION_ID=4294967295\n"), Ok((4294967295, None)));
    assert_eq!(parse_os_release("VERSION_ID=+7.1\n"), Ok((7, None)));
}

#[test]
fn release_files_give_version_and_codenames() {
    assert_eq!(parse_stable_release(STABLE_RELEASE), (Some(13), Some("trixie".to_string())));
    assert_eq!(parse_stable_release("Suite: stable\n"), (None, None));
    assert_eq!(parse_testing_codename(TESTING_RELEASE), Some("forky".to_string()));
    assert_eq!(parse_testing_codename("Suite: testing\n"), None);
}

#[test]
fn sources_list_suites_move_to_the_target() {
    let content = "deb http://deb.debian.org/debian bookworm main\n# comment\ndeb-src  http://x bookworm-updates main # trailing\ndeb http://security.debian.org bookworm-security main\ndeb http://other focal main\n\n";
    let (out, n) = rewrite_sources_list(content, "bookworm", "trixie");
    assert_eq!(n, 3);
    assert_eq!(
        out,
        "deb http://deb.debian.org/debian trixie main\n# comment\ndeb-src http://x trixie-updates main # trailing\ndeb http://security.debian.org trixie-security main\ndeb http://other focal main\n\n"
    );
    let (out, n) = rewrite_sources_list("deb http://a stable-updates main", "bookworm", "trixie");
    assert_eq!((out.as_str(), n), ("deb http://a trixie-updates main", 1));
}

#[test]
fn moving_suites_twice_moves_nothing_more() {
    let content = "deb http://a bookworm main # x\n  deb-src  http://a stable-security main\nfoo   bar\n";
    let (once, n1) = rewrite_sources_list(content, "bookworm", "trixie");
    assert_eq!(n1, 2);
    assert_eq!(once, "deb http://a trixie main # x\ndeb-src http://a trixie-security main\nfoo bar\n");
    assert_eq!(rewrite_sources_list(&once, "bookworm", "trixie"), (once.clone(), 0));
    let deb822 = "Types: deb\nSuites:   bookworm   oldstable-updates\nSuites:\n";
    let (once, n1) = rewrite_debian_sources(deb822, "bookworm", "trixie");
    assert_eq!(n1, 2);
    assert_eq!(once, "Types: deb\nSuites: trixie trixie-updates\nSuites: \n");
    assert_eq!(rewrite_debian_sources(&once, "bookworm", "trixie"), (once.clone(), 0));
}

#[test]
fn deb822_suites_move_to_the_target() {
    let content = "Types: deb\nURIs: http://deb.debian.org/debian\nSuites: bookworm bookworm-updates stable\nComponents: main\n\nTypes: deb\n  Suites: bookworm-security\n";
    let (out, n) = rewrite_debian_sources(content, "bookworm", "trixie");
    assert_eq!(n, 4);
    assert_eq!(
        out,
        "Types: deb\nURIs: http://deb.debian.org/debian\nSuites: trixie trixie-updates trixie\nComponents: main\n\nTypes: deb\nSuites: trixie-security\n"
    );
}

#[test]
fn list_entries_are_commented_out_once() {
    let path = "/etc/apt/sources.list.d/x.list";
    let content = "deb http://a stable main\n# deb http://old stable main\n  deb-src http://a stable main\n#comment\ndebfoo\n";
    let r = disable_list_repo_lines(content, path);
    assert_eq!(
        r.content,
        "# debian-upgrade-disabled deb http://a stable main\n# deb http://old stable main\n# debian-upgrade-disabled   deb-src http://a stable main\n#comment\ndebfoo\n"
    );
    assert_eq!((r.changed, r.already_disabled), (2, 1));
    assert_eq!(
        r.actions,
        vec![
            "list-comment|/etc/apt/sources.list.d/x.list|deb http://a stable main".to_string(),
            "list-comment|/etc/apt/sources.list.d/x.list|deb-src http://a stable main".to_string(),
        ]
    );
    let again = disable_list_repo_lines(&r.content, path);
    assert_eq!(again.changed, 0);
    assert_eq!(again.content, r.content);
    assert!(again.actions.is_empty());
}

#[test]
fn list_disabling_folds_double_carriage_returns() {
    let first = disable_list_repo_lines("deb\r\r\n", "p");
    assert_eq!((first.content.as_str(), first.changed), ("deb\r\n", 0));
    let second = disable_list_repo_lines(&first.content, "p");
    assert_eq!((second.content.as_str(), second.changed), ("# debian-upgrade-disabled deb\n", 1));
    let crlf = disable_list_repo_lines("deb http://a x main\r\n", "p");
    assert_eq!(crlf.content, "# debian-upgrade-disabled deb http://a x main\n");
    assert_eq!(disable_list_repo_lines(&crlf.content, "p").content, crlf.content);
}

#[test]
fn deb822_stanzas_are_turned_off() {
    let path = "/etc/apt/sources.list.d/y.sources";
    let content = "Types: deb\nURIs: http://a\nSuites: x\nEnabled: yes\n\nTypes: deb\nURIs: http://b\n\nTypes: deb\nEnabled: no\n";
    let r = disable_sources_entries(content, path);
    assert_eq!(
        r.content,
        "Types: deb\nURIs: http://a\nSuites: x\n# debian-upgrade-disabled-enabled\nEnabled: no\n\nTypes: deb\nURIs: http://b\n# debian-upgrade-disabled-enabled\nEnabled: no\n\nTypes: deb\nEnabled: no\n"
    );
    assert_eq!((r.changed, r.already_disabled), (2, 1));
    assert_eq!(
        r.actions,
        vec![
            "sources-enabled-no|/etc/apt/sources.list.d/y.sources|stanza-start=0".to_string(),
            "sources-enabled-added|/etc/apt/sources.list.d/y.sources|stanza-start=6".to_string(),
        ]
    );
    let again = disable_sources_entries(&r.content, path);
    assert_eq!((again.content.as_str(), again.changed, again.already_disabled), (r.content.as_str(), 0, 3));
    assert!(again.actions.is_empty());
}

#[test]
fn unterminated_carriage_return_is_folded_on_a_second_pass() {
    let first = disable_sources_entries("Types: deb\r", "p");
    assert_eq!(first.content, "Types: deb\r\n# debian-upgrade-disabled-enabled\nEnabled: no");
    let second = disable_sources_entries(&first.content, "p");
    assert_eq!((second.content.as_str(), second.changed), ("Types: deb\n# debian-upgrade-disabled-enabled\nEnabled: no", 0));
}

#[test]
fn existing_enabled_field_is_replaced() {
    let r = disable_sources_entries("Types: deb\nEnabled: yes\n", "p");
    assert_eq!(r.content, "Types: deb\n# debian-upgrade-disabled-enabled\nEnabled: no\n");
    assert_eq!((r.changed, r.already_disabled), (1, 0));
    assert_eq!(r.actions, vec!["sources-enabled-no|p|stanza-start=0".to_string()]);
}

#[test]
fn unterminated_stanzas_are_settled_after_one_pass() {
    let first = disable_sources_entries("Types: deb\nEnabled: yes\n\nTypes: deb", "p");
    assert_eq!(
        first.content,
        "Types: deb\n# debian-upgrade-disabled-enabled\nEnabled: no\n\nTypes: deb\n# debian-upgrade-disabled-enabled\nEnabled: no"
    );
    assert_eq!((first.changed, first.already_disabled), (2, 0));
    let second = disable_sources_entries(&first.content, "p");
    assert_eq!((second.content.as_str(), second.changed, second.already_disabled), (first.content.as_str(), 0, 2));
    assert!(second.actions.is_empty());
}

#[test]
fn misspelled_list_files_are_third_party_sources() {
    assert!(third_party_candidate("vendor.lsit"));
    assert!(!is_deb822_file("vendor.lsit"));
    assert!(third_party_candidate("vendor.list"));
    assert!(third_party_candidate("vendor.sources"));
    assert!(!third_party_candidate("debian.sources"));
    assert!(!third_party_candidate(".lsit"));
    assert!(!third_party_candidate("vendor.txt"));
    assert!(offered_source("vendor.list") && offered_source("vendor.sources"));
    assert!(!offered_source("vendor.lsit"));
    assert!(!offered_source("debian.sources") && !offered_source(".list"));
}

#[test]
fn lsit_files_are_disabled_as_list_files() {
    let mut s = run_command(AppContext { dry_run: false, debug: false }, Command::DisableThirdParty);
    s.step(Reply::Start);
    let a = s.step(Reply::Entries(vec![entry("vendor.lsit", true)]));
    assert!(matches!(&a.request, Request::ReadFile { path } if path == "/etc/apt/sources.list.d/vendor.lsit"));
    let a = s.step(text("deb http://vendor.example stable main\n"));
    match &a.request {
        Request::WriteFile { path, content } => {
            assert_eq!(path, "/etc/apt/sources.list.d/vendor.lsit");
            assert_eq!(content, "# debian-upgrade-disabled deb http://vendor.example stable main\n");
        }
        other => panic!("unexpected request {:?}", other),
    }
}

#[test]
fn marker_before_enabled_is_replaced() {
    let r = disable_sources_entries("Types: deb\n# debian-upgrade-disabled-enabled\nEnabled: yes\n", "p");
    assert_eq!(r.content, "Types: deb\n# debian-upgrade-disabled-enabled\nEnabled: no\n");
    assert_eq!(r.changed, 1);
}

#[test]
fn output_lines_do_not_depend_on_chunking() {
    let mut whole = LineSplitter::new();
    let all = whole.feed("Reading package lists...\r\nDone\n  \nlast");
    assert_eq!(all, vec!["Reading package lists...".to_string(), "Done".to_string()]);
    assert_eq!(whole.finish(), Some("last".to_string()));

    let mut parts = LineSplitter::new();
    let mut got = parts.feed("Reading pack");
    got.extend(parts.feed("age lists...\r"));
    got.extend(parts.feed("\nDone\n  \nla"));
    got.extend(parts.feed("st"));
    assert_eq!(got, all);
    assert_eq!(parts.finish(), Some("last".to_string()));
}

fn drive(session: &mut Session, replies: Vec<Reply>) -> (Vec<Event>, Vec<Request>) {
    let mut events = Vec::new();
    let mut requests = Vec::new();
    for r in replies {
        let a = session.step(r);
        events.extend(a.events);
        requests.push(a.request);
    }
    (events, requests)
}

#[test]
fn release_check_reports_a_new_major_release() {
    let mut s = check_new_major_release(AppContext { dry_run: false, debug: false });
    let (events, requests) = drive(
        &mut s,
        vec![Reply::Start, text(OS_RELEASE_12), text(STABLE_RELEASE), text(TESTING_RELEASE)],
    );
    assert!(matches!(&requests[0], Request::ReadFile { path } if path == "/etc/os-release"));
    assert!(matches!(&requests[1], Request::Fetch { url } if url == "https://deb.debian.org/debian/dists/stable/Release"));
    assert!(matches!(&requests[2], Request::Fetch { url } if url == "https://deb.debian.org/debian/dists/testing/Release"));
    assert!(matches!(&requests[3], Request::Finish));
    assert_eq!(events.len(), 2);
    assert_eq!(
        level_step_message(&events[1]),
        (LogLevel::Success, "check-new-release", StepState::Done, "Nouvelle version majeure disponible: 13 (trixie)".to_string())
    );
    match s.outcome() {
        Outcome::Released(r) => {
            assert!(r.update_available);
            assert_eq!((r.current_major, r.stable_major), (12, 13));
            assert_eq!(r.current_codename, Some("bookworm".to_string()));
            assert_eq!(r.stable_codename, "trixie");
            assert_eq!(r.testing_codename, Some("forky".to_string()));
        }
        other => panic!("unexpected outcome {:?}", other),
    }
}

#[test]
fn release_check_debug_traces_use_debug_formatting() {
    let mut s = check_new_major_release(AppContext { dry_run: true, debug: true });
    let (events, _) = drive(
        &mut s,
        vec![
            Reply::Start,
            text(OS_RELEASE_12),
            text("Version: 12.11\nCodename: bookworm\n"),
            Reply::Failed { at: IoStep::Open, detail: "offline".to_string() },
        ],
    );
    let messages: Vec<String> = events.iter().map(|e| e.message.clone()).collect();
    assert_eq!(
        messages,
        vec![
            "Verification en ligne de la nouvelle version majeure Debian...".to_string(),
            "Systeme local detecte: major=12, codename=Some(\"bookworm\")".to_string(),
            "Debian releases: stable=12 (bookworm) testing=None".to_string(),
            "Aucune nouvelle version majeure Debian disponible (stable 12 - bookworm). Mode debug: poursuite autorisee pour tests.".to_string(),
        ]
    );
    assert!(matches!(s.outcome(), Outcome::Released(r) if !r.update_available && r.testing_codename.is_none()));
}

#[test]
fn release_check_failures_stop_the_session() {
    let mut s = check_new_major_release(AppContext { dry_run: false, debug: false });
    let (_, requests) = drive(
        &mut s,
        vec![Reply::Start, Reply::Failed { at: IoStep::Read, detail: "No such file or directory".to_string() }],
    );
    assert!(matches!(requests[1], Request::Finish));
    match s.outcome() {
        Outcome::Failed(CoreError { context, cause }) => {
            assert_eq!(context, "lecture /etc/os-release");
            assert_eq!(cause.as_deref(), Some("No such file or directory"));
        }
        other => panic!("unexpected outcome {:?}", other),
    }

    let mut s = check_new_major_release(AppContext { dry_run: false, debug: false });
    drive(&mut s, vec![Reply::Start, text(OS_RELEASE_12), text("Codename: trixie\n")]);
    assert!(matches!(s.outcome(), Outcome::Failed(e) if e.context == "Impossible d'extraire la version Debian stable depuis dists/stable/Release"));

    let mut s = check_new_major_release(AppContext { dry_run: false, debug: false });
    drive(&mut s, vec![Reply::Start, text("VERSION_ID=\"twelve\"\n")]);
    assert!(matches!(s.outcome(), Outcome::Failed(e) if e.context == "parse major VERSION_ID" && e.cause.as_deref() == Some("invalid digit found in string")));

    let mut s = check_new_major_release(AppContext { dry_run: false, debug: false });
    drive(&mut s, vec![Reply::Start, text("NAME=x\n")]);
    assert!(matches!(s.outcome(), Outcome::Failed(e) if e.context == "VERSION_ID introuvable dans /etc/os-release"));

    let mut s = check_new_major_release(AppContext { dry_run: false, debug: false });
    drive(&mut s, vec![Reply::Start, Reply::Flag(true)]);
    assert!(matches!(s.outcome(), Outcome::Failed(e) if e.context == "reponse inattendue du systeme"));
    let after = s.step(Reply::Done);
    assert!(after.events.is_empty() && matches!(after.request, Request::Finish));
}

fn entry(name: &str, is_file: bool) -> DirEntry {
    DirEntry { name: Some(name.to_string()), is_file }
}

/// A system that answers every request of the dry-run pipeline and refuses changes.
fn dry_system(request: &Request) -> Reply {
    match request {
        Request::ReadFile { path } if path == "/etc/os-release" => text(OS_RELEASE_12),
        Request::Fetch { url } if url.ends_with("stable/Release") => text(STABLE_RELEASE),
        Request::Fetch { .. } => text(TESTING_RELEASE),
        Request::ProbeApt => Reply::Probe { success: true, stdout: "Usage: apt [options] command".to_string(), stderr: String::new() },
        Request::Sleep { .. } => Reply::Done,
        Request::PathExists { .. } => Reply::Flag(true),
        Request::ReadFile { path } if path == "/etc/apt/sources.list.d/debian.sources" => {
            text("Types: deb\nSuites: bookworm bookworm-updates\n")
        }
        Request::ListDir { .. } => Reply::Entries(vec![
            entry("debian.sources", true),
            entry("vendor.list", true),
            entry("backup.list", false),
            entry("notes.txt", true),
        ]),
        Request::ReadFile { path } if path == "/etc/apt/sources.list.d/vendor.list" => {
            text("deb http://vendor.example stable main\n")
        }
        other => panic!("dry-run must not ask {:?}", other),
    }
}

#[test]
fn dry_run_pipeline_changes_nothing() {
    let mut s = run_command(AppContext { dry_run: true, debug: false }, Command::RunAll);
    let mut reply = Reply::Start;
    let mut events = Vec::new();
    for _ in 0..100 {
        let a = s.step(reply);
        events.extend(a.events);
        if matches!(a.request, Request::Finish) {
            break;
        }
        reply = dry_system(&a.request);
    }
    assert!(matches!(s.outcome(), Outcome::Completed));
    let messages: Vec<String> = events.iter().map(|e| e.message.clone()).collect();
    assert!(messages.contains(&"Debian 12 detectee: dry-run remplacement 'bookworm' -> 'trixie' dans debian.sources (2 entree(s)); sources.list serait renomme en sources.bak.".to_string()));
    assert!(messages.contains(&"Dry-run: desactivation tierce prevue dans /etc/apt/sources.list.d/vendor.list (1 entree(s) modifiee(s)).".to_string()));
    assert!(messages.contains(&"Mode dry-run: 1 fichier(s) tiers seraient modifies (1 entree(s) desactivee(s)).".to_string()));
    assert_eq!(messages.first().map(String::as_str), Some("Démarrage du pipeline complet de préparation..."));
    assert_eq!(messages.last().map(String::as_str), Some("Pipeline de préparation terminé."));
    assert!(events.iter().all(|e| e.level != LogLevel::Debug));
}

#[test]
fn run_all_stops_without_a_new_release() {
    let mut s = run_command(AppContext { dry_run: false, debug: false }, Command::RunAll);
    let (events, requests) = drive(
        &mut s,
        vec![Reply::Start, text(OS_RELEASE_12), text("Version: 12.11\nCodename: bookworm\n"), text(TESTING_RELEASE)],
    );
    assert!(matches!(requests[3], Request::Finish));
    assert_eq!(
        events.last().map(|e| e.message.as_str()),
        Some("Processus arrêté: aucune nouvelle version majeure Debian disponible.")
    );
    assert!(matches!(s.outcome(), Outcome::Completed));
}

#[test]
fn third_party_changes_are_written_and_recorded() {
    let mut s = run_command(AppContext { dry_run: false, debug: false }, Command::DisableThirdParty);
    let a = s.step(Reply::Start);
    assert!(matches!(&a.request, Request::ListDir { path } if path == "/etc/apt/sources.list.d"));
    let a = s.step(Reply::Entries(vec![entry("vendor.list", true), entry("debian.sources", true)]));
    assert!(matches!(&a.request, Request::ReadFile { path } if path == "/etc/apt/sources.list.d/vendor.list"));
    let a = s.step(text("deb http://vendor.example stable main\n"));
    match &a.request {
        Request::WriteFile { path, content } => {
            assert_eq!(path, "/etc/apt/sources.list.d/vendor.list");
            assert_eq!(content, "# debian-upgrade-disabled deb http://vendor.example stable main\n");
        }
        other => panic!("unexpected request {:?}", other),
    }
    let a = s.step(Reply::Done);
    assert_eq!(a.events[0].message, "Depot tiers desactive dans /etc/apt/sources.list.d/vendor.list (1 entree(s) modifiee(s)).");
    assert!(matches!(&a.request, Request::CreateDir { path } if path == "/var/lib/debian-upgrade"));
    let a = s.step(Reply::Done);
    match &a.request {
        Request::AppendLines { path, lines } => {
            assert_eq!(path, "/var/lib/debian-upgrade/third-party-actions.log");
            assert_eq!(
                lines,
                &vec![
                    "disable-third-party|start".to_string(),
                    "list-comment|/etc/apt/sources.list.d/vendor.list|deb http://vendor.example stable main".to_string(),
                    "disable-third-party|summary|changed_files=1|changed_entries=1|already_disabled_entries=0".to_string(),
                ]
            );
        }
        other => panic!("unexpected request {:?}", other),
    }
    let a = s.step(Reply::Failed { at: IoStep::Open, detail: "denied".to_string() });
    assert!(a.events.is_empty());
    assert!(matches!(s.outcome(), Outcome::Failed(e) if e.context == "ouverture /var/lib/debian-upgrade/third-party-actions.log"));
}

#[test]
fn missing_third_party_directory_is_a_warning() {
    let mut s = run_command(AppContext { dry_run: false, debug: false }, Command::DisableThirdParty);
    let (events, requests) = drive(&mut s, vec![Reply::Start, Reply::Failed { at: IoStep::Open, detail: "x".to_string() }]);
    assert!(matches!(requests[1], Request::Finish));
    assert_eq!(
        level_step_message(&events[1]),
        (LogLevel::Warn, "disable-third-party", StepState::Done, "Aucun repertoire /etc/apt/sources.list.d accessible.".to_string())
    );
    assert!(matches!(s.outcome(), Outcome::Completed));
}

#[test]
fn package_commands_stream_their_output() {
    let mut s = run_command(AppContext { dry_run: false, debug: false }, Command::PreparePackages);
    let a = s.step(Reply::Start);
    assert!(matches!(&a.request, Request::Run { command } if command == "apt-get clean 2>&1"));
    let a = s.step(Reply::Output("line one\nli".to_string()));
    assert_eq!(a.events.iter().map(|e| e.message.clone()).collect::<Vec<_>>(), vec!["line one".to_string()]);
    assert!(matches!(a.request, Request::Continue));
    let a = s.step(Reply::Output("ne two".to_string()));
    assert!(a.events.is_empty());
    let a = s.step(Reply::OutputEnd);
    assert_eq!(a.events[0].message, "line two");
    let a = s.step(Reply::Exited { success: true });
    assert_eq!(a.events[0].message, "Commande OK: apt-get clean");
    assert!(matches!(&a.request, Request::Run { command } if command == "env DEBIAN_FRONTEND=noninteractive DEBIAN_PRIORITY=critical APT_LISTCHANGES_FRONTEND=none apt-get update 2>&1"));
    let a = s.step(Reply::OutputEnd);
    assert!(a.events.is_empty());
    let a = s.step(Reply::Exited { success: false });
    assert!(matches!(a.request, Request::Finish));
    assert!(matches!(s.outcome(), Outcome::Failed(e) if e.context == "commande en echec: env DEBIAN_FRONTEND=noninteractive DEBIAN_PRIORITY=critical APT_LISTCHANGES_FRONTEND=none apt-get update" && e.cause.is_none()));
}

#[test]
fn package_commands_are_skipped_in_dry_run() {
    let mut s = run_command(AppContext { dry_run: true, debug: true }, Command::DryRunUpgrade);
    let a = s.step(Reply::Start);
    assert!(matches!(a.request, Request::Finish));
    assert_eq!(a.events.len(), 3);
    assert_eq!(a.events[2].message, "Mode dry-run: simulation uniquement, pas d'execution apt-get -s.");
}

#[test]
fn schedule_reports_the_reboot_command() {
    let mut s = run_command(AppContext { dry_run: false, debug: false }, Command::ScheduleOfflineUpgrade);
    let (events, requests) = drive(&mut s, vec![Reply::Start, Reply::Done]);
    assert!(matches!(requests[0], Request::Sleep { millis: 150 }));
    assert!(matches!(requests[1], Request::Finish));
    let messages: Vec<String> = events.iter().map(|e| e.message.clone()).collect();
    assert_eq!(
        messages,
        vec![
            "Planification de la mise à niveau hors-ligne au reboot...".to_string(),
            "Étape exécutée (implémentation système à brancher).".to_string(),
            "Commande planifiee au reboot: env DEBIAN_FRONTEND=noninteractive DEBIAN_PRIORITY=critical APT_LISTCHANGES_FRONTEND=none apt-get -y -o Dpkg::Options::=--force-confdef -o Dpkg::Options::=--force-confold -o APT::Get::Always-Include-Phased-Updates=true dist-upgrade".to_string(),
        ]
    );
}

#[test]
fn check_sources_probe_finds_modernize_sources() {
    let mut s = run_command(AppContext { dry_run: false, debug: true }, Command::CheckSources);
    let (events, requests) = drive(
        &mut s,
        vec![
            Reply::Start,
            Reply::Probe { success: true, stdout: "commands:\n".to_string(), stderr: "  modernize-sources - x".to_string() },
            Reply::Done,
            text("VERSION_ID=\"13\"\nVERSION_CODENAME=trixie\n"),
        ],
    );
    assert!(matches!(requests[0], Request::ProbeApt));
    assert!(matches!(requests[3], Request::Finish));
    assert!(events.iter().any(|e| e.message == "Action prévue: Moderniser les sources officielles: apt modernize-sources"));
    assert_eq!(events.last().map(|e| e.message.as_str()), Some("Compatibilité APT: 'modernize-sources' disponible."));
    assert!(matches!(s.outcome(), Outcome::Completed));
}

#[test]
fn check_sources_migrates_sources_list_without_deb822() {
    let mut s = run_command(AppContext { dry_run: false, debug: false }, Command::CheckSources);
    let (events, requests) = drive(
        &mut s,
        vec![
            Reply::Start,
            Reply::Failed { at: IoStep::Open, detail: "no apt".to_string() },
            Reply::Done,
            text(OS_RELEASE_12),
            text(STABLE_RELEASE),
            Reply::Failed { at: IoStep::Open, detail: "offline".to_string() },
            Reply::Flag(false),
            text("deb http://deb.debian.org/debian bookworm main\n"),
            Reply::Done,
        ],
    );
    assert!(matches!(&requests[6], Request::ReadFile { path } if path == "/etc/apt/sources.list"));
    assert!(matches!(&requests[7], Request::WriteFile { path, content } if path == "/etc/apt/sources.list" && content == "deb http://deb.debian.org/debian trixie main\n"));
    assert!(matches!(requests[8], Request::Finish));
    assert_eq!(
        events.last().map(|e| e.message.as_str()),
        Some("Debian 12 detectee: /etc/apt/sources.list migre 'bookworm' -> 'trixie' (1 entree(s) modifiee(s)).")
    );
}


#[test]
fn debug_release_check_traces_twice_whatever_the_mode() {
    let replies = || vec![Reply::Start, text(OS_RELEASE_12), text(STABLE_RELEASE), text(TESTING_RELEASE)];
    let mut dry = check_new_major_release(AppContext { dry_run: true, debug: true });
    let (dry_events, dry_requests) = drive(&mut dry, replies());
    let mut real = check_new_major_release(AppContext { dry_run: false, debug: true });
    let (real_events, real_requests) = drive(&mut real, replies());
    assert_eq!(dry_events.iter().filter(|e| e.level == LogLevel::Debug).count(), 2);
    let dry_view: Vec<_> = dry_events.iter().map(level_step_message).collect();
    let real_view: Vec<_> = real_events.iter().map(level_step_message).collect();
    assert_eq!(dry_view, real_view);
    assert_eq!(format!("{:?}", dry_requests), format!("{:?}", real_requests));

    let mut quiet = check_new_major_release(AppContext { dry_run: true, debug: false });
    let (quiet_events, _) = drive(&mut quiet, replies());
    assert_eq!(quiet_events.iter().filter(|e| e.level == LogLevel::Debug).count(), 0);
}

fn third_party_listing() -> Reply {
    Reply::Entries(vec![entry("a.list", true), entry("b.sources", true), entry("c.list", true)])
}

const A_LIST: &str = "deb http://a stable main\ndeb-src http://a stable main\n";
const B_SOURCES: &str = "Types: deb\nURIs: http://b\n";
const C_LIST: &str = "# deb http://c stable main\n";

#[test]
fn dry_run_reports_the_third_party_counts_of_a_run() {
    let mut dry = run_command(AppContext { dry_run: true, debug: false }, Command::DisableThirdParty);
    let (dry_events, _) = drive(
        &mut dry,
        vec![Reply::Start, third_party_listing(), text(A_LIST), text(B_SOURCES), text(C_LIST)],
    );
    assert_eq!(
        level_step_message(dry_events.last().unwrap()),
        (LogLevel::Warn, "disable-third-party", StepState::Done, "Mode dry-run: 2 fichier(s) tiers seraient modifies (3 entree(s) desactivee(s)).".to_string())
    );

    let mut real = run_command(AppContext { dry_run: false, debug: false }, Command::DisableThirdParty);
    let (real_events, requests) = drive(
        &mut real,
        vec![
            Reply::Start,
            third_party_listing(),
            text(A_LIST),
            Reply::Done,
            text(B_SOURCES),
            Reply::Done,
            text(C_LIST),
            Reply::Done,
            Reply::Done,
        ],
    );
    assert_eq!(
        level_step_message(real_events.last().unwrap()),
        (LogLevel::Success, "disable-third-party", StepState::Done, "2 fichier(s) tiers modifies (3 entree(s) desactivee(s)).".to_string())
    );
    match &requests[7] {
        Request::AppendLines { lines, .. } => assert_eq!(
            lines.last().unwrap(),
            "disable-third-party|summary|changed_files=2|changed_entries=3|already_disabled_entries=1"
        ),
        other => panic!("unexpected request {:?}", other),
    }
}

#[test]
fn dry_run_reports_the_sources_list_count_of_a_run() {
    let list = "deb http://deb.debian.org/debian bookworm main\ndeb http://security.debian.org/debian-security bookworm-security main\n# deb http://x bookworm main\n";
    let replies = |extra: Vec<Reply>| {
        let mut r = vec![
            Reply::Start,
            Reply::Probe { success: true, stdout: String::new(), stderr: String::new() },
            Reply::Done,
            text(OS_RELEASE_12),
            text(STABLE_RELEASE),
            text(TESTING_RELEASE),
            Reply::Flag(false),
            text(list),
        ];
        r.extend(extra);
        r
    };
    let mut dry = run_command(AppContext { dry_run: true, debug: false }, Command::CheckSources);
    let (dry_events, dry_requests) = drive(&mut dry, replies(vec![]));
    assert!(matches!(dry_requests.last().unwrap(), Request::Finish));
    assert_eq!(
        dry_events.last().unwrap().message,
        "Debian 12 detectee: dry-run remplacement 'bookworm' -> 'trixie' dans /etc/apt/sources.list (2 entree(s) ciblee(s))."
    );
    let mut real = run_command(AppContext { dry_run: false, debug: false }, Command::CheckSources);
    let (real_events, real_requests) = drive(&mut real, replies(vec![Reply::Done]));
    assert!(matches!(&real_requests[7], Request::WriteFile { path, .. } if path == "/etc/apt/sources.list"));
    assert_eq!(
        real_events.last().unwrap().message,
        "Debian 12 detectee: /etc/apt/sources.list migre 'bookworm' -> 'trixie' (2 entree(s) modifiee(s))."
    );
}

#[test]
fn release_command_reports_like_the_release_check() {
    let ctx = AppContext { dry_run: false, debug: true };
    let replies = || vec![Reply::Start, text(OS_RELEASE_12), text(STABLE_RELEASE), text(TESTING_RELEASE)];
    let mut command = run_command(ctx, Command::CheckNewRelease);
    let (command_events, command_requests) = drive(&mut command, replies());
    let mut check = check_new_major_release(ctx);
    let (check_events, check_requests) = drive(&mut check, replies());
    let a: Vec<_> = command_events.iter().map(level_step_message).collect();
    let b: Vec<_> = check_events.iter().map(level_step_message).collect();
    assert_eq!(a, b);
    assert_eq!(format!("{:?}", command_requests), format!("{:?}", check_requests));
    assert!(matches!(command.outcome(), Outcome::Completed));
    assert!(matches!(check.outcome(), Outcome::Released(r) if r.update_available));
}

#[test]
fn second_runs_over_carriage_returns_change_nothing() {
    let content = "Types: deb\r\r\nEnabled: yes\r\r\n\r\nTypes: deb\r";
    let first = disable_sources_entries(content, "p");
    assert_eq!((first.changed, first.already_disabled), (2, 0));
    let second = disable_sources_entries(&first.content, "p");
    assert_eq!((second.changed, second.already_disabled), (0, 2));
    assert!(second.actions.is_empty());

    let list = "deb http://a x main\r\n# deb http://b x main\r\r\n";
    let first = disable_list_repo_lines(list, "p");
    assert_eq!((first.changed, first.already_disabled), (1, 1));
    let second = disable_list_repo_lines(&first.content, "p");
    assert_eq!((second.changed, second.already_disabled), (0, 1));
    assert!(second.actions.is_empty());

    let list = "deb http://a x main\n# deb\r\r\n";
    let first = disable_list_repo_lines(list, "p");
    assert_eq!((first.changed, first.already_disabled), (1, 0));
    let second = disable_list_repo_lines(&first.content, "p");
    assert_eq!((second.changed, second.already_disabled), (0, 1));

    let untouched = disable_list_repo_lines("deb\r\r\n", "p");
    assert_eq!(untouched.changed, 0);
    let turned = disable_list_repo_lines("deb http://a x main\ndeb\r\r\n", "p");
    assert_eq!(turned.changed, 1);
    assert_eq!(disable_list_repo_lines(&turned.content, "p").changed, 1);
}
