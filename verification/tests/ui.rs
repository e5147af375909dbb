use upgrade_core::protocol::{CoreError, DirEntry, Outcome};
use upgrade_core::ui::{
    agent_args, agent_needs_restart, apply_ui_event, classify_agent_line, core_to_ui_event, debug_requested,
    is_permission_error, level_to_str, log_line, needs_privileged_retry, next_page,
    package_step_screen, parse_backend_json_events, prev_page,
    reactivation_command, release_check_screen, session_config_path, sort_texts, state_to_str,
    status_tone, strip_line_endings, take_flush_batch, third_party_names, tone_color, AgentLine,
    LogView, PackageStep, StatusTone, UiEvent, MAX_LOG_LINES,
};
use upgrade_core::model::event;
use upgrade_core::agent::{AgentReply, AgentRequest, AgentRun};
use upgrade_core::screens::{
    page_context, privileged_result_screen, reboot_request_screen, reboot_result_screen,
    sources_validated_screen, sources_validation_failed_screen, validation_subcommands,
};
use upgrade_core::{LogLevel, ReleaseCheckResult, StepState};

fn ui(level: &str, step: &str, state: &str, message: &str) -> UiEvent {
    UiEvent {
        level: level.to_string(),
        step: step.to_string(),
        state: state.to_string(),
        message: message.to_string(),
    }
}

fn parts(e: &UiEvent) -> (String, String, String, String) {
    (e.level.clone(), e.step.clone(), e.state.clone(), e.message.clone())
}

#[test]
fn levels_and_states_are_written_in_lower_case() {
    assert_eq!(level_to_str(LogLevel::Debug), "debug");
    assert_eq!(level_to_str(LogLevel::Success), "success");
    assert_eq!(state_to_str(StepState::Running), "running");
    assert_eq!(state_to_str(StepState::Failed), "failed");
    let u = core_to_ui_event(event(LogLevel::Warn, "check-sources", StepState::Done, "fini".to_string()));
    assert_eq!(parts(&u), ("warn".to_string(), "check-sources".to_string(), "done".to_string(), "fini".to_string()));
}

#[test]
fn tones_follow_level_and_state() {
    assert_eq!(status_tone(&ui("info", "s", "failed", "m")), StatusTone::Error);
    assert_eq!(status_tone(&ui("error", "s", "pending", "m")), StatusTone::Error);
    assert_eq!(status_tone(&ui("warn", "s", "done", "m")), StatusTone::Warn);
    assert_eq!(status_tone(&ui("success", "s", "done", "m")), StatusTone::Success);
    assert_eq!(status_tone(&ui("success", "s", "pending", "m")), StatusTone::Neutral);
    assert_eq!(status_tone(&ui("info", "s", "running", "m")), StatusTone::Running);
    assert_eq!(tone_color(StatusTone::Error), (182, 46, 46));
    assert_eq!(tone_color(StatusTone::Neutral), (79, 91, 102));
}

#[test]
fn log_lines_show_level_message_step_and_state() {
    assert_eq!(log_line(&ui("info", "check-sources", "running", "Go")), "[info] Go (check-sources, running)");
}

#[test]
fn log_pane_keeps_the_latest_lines() {
    let mut view = LogView::new();
    assert_eq!(view.append_log("a", false), Some("a\n\n".to_string()));
    assert_eq!(view.append_logs_batch(&vec![], false), None);
    assert_eq!(view.append_log("b", true), None);
    assert_eq!(view.append_log("c", true), None);
    assert_eq!(view.log_ring(), &vec!["a".to_string()]);
    assert_eq!(view.append_log("d", false), Some("a\nb\nc\nd\n\n".to_string()));
    let batch: Vec<String> = (0..MAX_LOG_LINES + 5).map(|i| format!("l{i}")).collect();
    let text = view.append_logs_batch(&batch, false).unwrap();
    assert_eq!(view.log_ring().len(), MAX_LOG_LINES);
    assert_eq!(view.log_ring()[0], "l5");
    assert!(text.ends_with(&format!("l{}\n\n", MAX_LOG_LINES + 4)));
    let mut blank = LogView::new();
    assert_eq!(blank.append_log("", false), Some(String::new()));
}

#[test]
fn log_pane_keeps_the_latest_of_all_shown_lines() {
    let mut view = LogView::new();
    let mut all: Vec<String> = Vec::new();
    let batches: Vec<(usize, bool)> = vec![(700, false), (300, true), (0, false), (250, true), (100, false), (5, true)];
    let mut next = 0;
    for (n, focus) in batches {
        let lines: Vec<String> = (next..next + n).map(|i| format!("x{i}")).collect();
        next += n;
        view.append_logs_batch(&lines, focus);
        all.extend(lines);
    }
    let held = view.deferred_log_lines().clone();
    assert_eq!(held, vec!["x1350", "x1351", "x1352", "x1353", "x1354"]);
    let shown = &all[..all.len() - held.len()];
    assert_eq!(view.log_ring().as_slice(), &shown[shown.len() - MAX_LOG_LINES..]);
    assert_eq!(view.log_ring()[0], "x150");
}

#[test]
fn events_update_header_and_log() {
    let mut view = LogView::new();
    let u = apply_ui_event(&mut view, ui("warn", "check-sources", "done", "Attention"), false);
    assert_eq!(u.header, "Attention");
    assert_eq!(u.tone, StatusTone::Warn);
    assert_eq!(u.log_text, Some("[warn] Attention (check-sources, done)\n\n".to_string()));
    let u = apply_ui_event(&mut view, ui("info", "s", "running", "Go"), true);
    assert_eq!((u.tone, u.log_text), (StatusTone::Running, None));
    assert_eq!(view.deferred_log_lines(), &vec!["[info] Go (s, running)".to_string()]);
}

#[test]
fn flush_takes_at_most_eight_events() {
    let mut pending: Vec<UiEvent> = (0..10).map(|i| ui("info", "s", "pending", &format!("m{i}"))).collect();
    let lines = take_flush_batch(&mut pending);
    assert_eq!(lines.len(), 8);
    assert_eq!(lines[0], "[info] m0 (s, pending)");
    assert_eq!(lines[7], "[info] m7 (s, pending)");
    assert_eq!(pending.len(), 2);
    assert_eq!(pending[0].message, "m8");
    let lines = take_flush_batch(&mut pending);
    assert_eq!(lines.len(), 2);
    assert!(pending.is_empty());
}

#[test]
fn backend_lines_are_read_as_json_or_shown_as_text() {
    let out = "{\"level\":\"warn\",\"step\":\"check-sources\",\"state\":\"done\",\"message\":\"ok\"}\nplain text\n   \n{\"level\":\"info\",\"step\":3}\n";
    let events = parse_backend_json_events(out);
    assert_eq!(events.len(), 3);
    assert_eq!(parts(&events[0]), ("warn".to_string(), "check-sources".to_string(), "done".to_string(), "ok".to_string()));
    assert_eq!(parts(&events[1]), ("info".to_string(), "backend".to_string(), "pending".to_string(), "plain text".to_string()));
    assert_eq!(
        parts(&events[2]),
        ("info".to_string(), "backend".to_string(), "pending".to_string(), "{\"level\":\"info\",\"step\":3}".to_string())
    );
}

#[test]
fn agent_lines_end_only_their_command() {
    assert!(matches!(classify_agent_line("__AGENT_DONE__|ok|check-sources\n", "check-sources"), AgentLine::Done));
    assert!(matches!(classify_agent_line("__AGENT_DONE__|error|check-sources", "check-sources"), AgentLine::Failed));
    assert!(matches!(classify_agent_line("  \n", "check-sources"), AgentLine::Skip));
    match classify_agent_line("__AGENT_DONE__|ok|prepare-packages", "check-sources") {
        AgentLine::Events(v) => {
            assert_eq!(v.len(), 1);
            assert_eq!(v[0].message, "__AGENT_DONE__|ok|prepare-packages");
        }
        _ => panic!("another command's end is shown"),
    }
    match classify_agent_line("{\"level\":\"success\",\"message\":\"fini\"}", "x") {
        AgentLine::Events(v) => assert_eq!(parts(&v[0]), ("success".to_string(), "backend".to_string(), "pending".to_string(), "fini".to_string())),
        _ => panic!("events expected"),
    }
}

#[test]
fn agent_restarts_when_needed() {
    assert!(agent_needs_restart(None, false, false));
    assert!(agent_needs_restart(Some(true), true, false));
    assert!(agent_needs_restart(Some(false), false, false));
    assert!(!agent_needs_restart(Some(false), true, false));
    assert_eq!(agent_args(true), vec!["--dry-run".to_string(), "--debug".to_string(), "agent".to_string()]);
    assert_eq!(agent_args(false), vec!["agent".to_string()]);
}

#[test]
fn third_party_names_are_sorted() {
    let entries = vec![
        DirEntry { name: Some("zeta.list".to_string()), is_file: true },
        DirEntry { name: Some("debian.sources".to_string()), is_file: true },
        DirEntry { name: Some("Alpha.sources".to_string()), is_file: true },
        DirEntry { name: Some("beta.list".to_string()), is_file: true },
        DirEntry { name: Some("gamma.lsit".to_string()), is_file: true },
        DirEntry { name: Some("dir.list".to_string()), is_file: false },
        DirEntry { name: Some(".list".to_string()), is_file: true },
        DirEntry { name: None, is_file: true },
        DirEntry { name: Some("readme.txt".to_string()), is_file: true },
    ];
    assert_eq!(
        third_party_names(&entries),
        vec!["Alpha.sources".to_string(), "beta.list".to_string(), "zeta.list".to_string()]
    );
    let words = vec!["b".to_string(), "ab".to_string(), "a".to_string(), "é".to_string(), "z".to_string(), "a".to_string()];
    let mut expected = words.clone();
    expected.sort();
    assert_eq!(sort_texts(words), expected);
}

#[test]
fn small_screen_decisions() {
    assert_eq!(strip_line_endings("secret\r\n\n"), "secret");
    assert_eq!(strip_line_endings("a\nb"), "a\nb");
    assert!(is_permission_error("E: Could not open lock file - open (13: Permission denied)"));
    assert!(is_permission_error("commande en echec: apt-get clean"));
    assert!(!is_permission_error("lecture /etc/os-release"));
    assert!(debug_requested(&vec!["gui".to_string(), "--debug".to_string()]));
    assert!(!debug_requested(&vec!["gui".to_string(), "--debugx".to_string()]));
    assert_eq!(session_config_path(Some("/cfg".to_string()), Some("/home/u".to_string())), "/cfg/debian-upgrade/session.json");
    assert_eq!(session_config_path(None, Some("/home/u/".to_string())), "/home/u/.config/debian-upgrade/session.json");
    assert_eq!(session_config_path(None, None), "/tmp/debian-upgrade/session.json");
    assert_eq!(reactivation_command(&vec![]), "set-third-party-reactivation");
    assert_eq!(reactivation_command(&vec!["a.list".to_string(), "b.sources".to_string()]), "set-third-party-reactivation a.list,b.sources");
    assert_eq!((next_page(1), next_page(6), prev_page(2), prev_page(1)), (2, 6, 1, 1));
}

#[test]
fn release_screen_guides_to_the_next_page() {
    let released = |available: bool| {
        Outcome::Released(ReleaseCheckResult {
            update_available: available,
            current_major: 12,
            current_codename: Some("bookworm".to_string()),
            stable_major: 13,
            stable_codename: "trixie".to_string(),
            testing_codename: None,
        })
    };
    let s = release_check_screen(&released(true), false, 2);
    assert_eq!(
        s.log,
        vec![
            "[info] 2 depot(s) tiers detecte(s). La liste est scrollable pour tout afficher.".to_string(),
            "[success] Mise a niveau disponible: 12 -> 13 (trixie)".to_string(),
        ]
    );
    assert_eq!((s.header.as_str(), s.tone, s.page), ("Nouvelle version detectee", StatusTone::Success, Some(2)));
    let s = release_check_screen(&released(false), false, 0);
    assert_eq!(s.log, vec!["[warn] Pas de nouvelle version: stable actuelle 13 (trixie)".to_string()]);
    assert_eq!(s.page, Some(6));
    let s = release_check_screen(&released(false), true, 0);
    assert_eq!(s.log[0], "[info] Aucun depot tiers detecte dans /etc/apt/sources.list.d.");
    assert_eq!((s.tone, s.page), (StatusTone::Warn, Some(2)));
    let failed = Outcome::Failed(CoreError { context: "lecture /etc/os-release".to_string(), cause: None });
    let s = release_check_screen(&failed, false, 0);
    assert_eq!(s.log, vec!["[error] Echec verification en ligne: lecture /etc/os-release".to_string()]);
    assert_eq!((s.tone, s.page), (StatusTone::Error, Some(6)));
}

#[test]
fn package_failures_ask_for_privileges_outside_debug_mode() {
    let failed = Outcome::Failed(CoreError { context: "commande en echec: apt-get clean".to_string(), cause: None });
    assert!(needs_privileged_retry(&failed, false));
    assert!(!needs_privileged_retry(&failed, true));
    let s = package_step_screen(&failed, false, PackageStep::PreparePackages);
    assert_eq!(s.log, vec!["[warn] Permissions insuffisantes detectees, tentative avec elevation privilegiee...".to_string()]);
    assert_eq!((s.header.as_str(), s.tone, s.page), ("Preparation des paquets en cours...", StatusTone::Running, None));
    let s = package_step_screen(&failed, true, PackageStep::DryRunUpgrade);
    assert_eq!(s.log, vec!["[error] Echec dry-run upgrade: commande en echec: apt-get clean".to_string()]);
    assert_eq!((s.tone, s.page), (StatusTone::Error, None));
    let s = package_step_screen(&Outcome::Completed, false, PackageStep::DryRunUpgrade);
    assert_eq!((s.header.as_str(), s.page), ("Dry-run valide", Some(5)));
    let s = package_step_screen(&Outcome::Completed, true, PackageStep::PreparePackages);
    assert_eq!((s.header.as_str(), s.page), ("Preparation paquets terminee", Some(4)));
}

fn request_text(r: &AgentRequest) -> String {
    match r {
        AgentRequest::Write(l) => format!("write {l}"),
        AgentRequest::ReadLine => "read".to_string(),
        AgentRequest::Finish => "finish".to_string(),
        AgentRequest::Fail(e) => format!("fail {e}"),
    }
}

#[test]
fn agent_run_goes_through_subcommands_in_order() {
    let (mut run, first) = AgentRun::start(vec!["check-sources".to_string(), "disable-third-party".to_string()]);
    assert_eq!(request_text(&first.request), "write check-sources\n");
    assert_eq!(request_text(&run.step(AgentReply::Written).request), "read");
    let shown = run.step(AgentReply::Line(
        "{\"level\":\"info\",\"step\":\"check-sources\",\"state\":\"running\",\"message\":\"go\"}\n".to_string(),
    ));
    assert_eq!(shown.events.len(), 1);
    assert_eq!(shown.events[0].message, "go");
    assert_eq!(request_text(&shown.request), "read");
    assert_eq!(request_text(&run.step(AgentReply::Line("\n".to_string())).request), "read");
    let next = run.step(AgentReply::Line("__AGENT_DONE__|ok|check-sources\n".to_string()));
    assert_eq!(request_text(&next.request), "write disable-third-party\n");
    run.step(AgentReply::Written);
    let end = run.step(AgentReply::Line("__AGENT_DONE__|ok|disable-third-party".to_string()));
    assert!(end.events.is_empty());
    assert_eq!(request_text(&end.request), "finish");
    assert_eq!(request_text(&run.step(AgentReply::Closed).request), "finish");

    let (_, none) = AgentRun::start(vec![]);
    assert_eq!(request_text(&none.request), "finish");
}

#[test]
fn agent_run_stops_on_the_first_failure() {
    let subs = || vec!["prepare-packages".to_string(), "schedule-offline-upgrade".to_string()];
    let (mut run, _) = AgentRun::start(subs());
    run.step(AgentReply::Written);
    let failed = run.step(AgentReply::Line("__AGENT_DONE__|error|prepare-packages\n".to_string()));
    assert_eq!(request_text(&failed.request), "fail commande agent en echec: prepare-packages");
    assert_eq!(request_text(&run.step(AgentReply::Written).request), "fail commande agent en echec: prepare-packages");

    let (mut run, _) = AgentRun::start(subs());
    run.step(AgentReply::Written);
    assert_eq!(
        request_text(&run.step(AgentReply::Closed).request),
        "fail agent termine de maniere inattendue (prepare-packages)"
    );

    let (mut run, _) = AgentRun::start(subs());
    assert_eq!(
        request_text(&run.step(AgentReply::WriteFailed("Broken pipe".to_string())).request),
        "fail agent write echec (prepare-packages): Broken pipe"
    );
    let (mut run, _) = AgentRun::start(subs());
    assert_eq!(
        request_text(&run.step(AgentReply::FlushFailed("Broken pipe".to_string())).request),
        "fail agent flush echec (prepare-packages): Broken pipe"
    );
    let (mut run, _) = AgentRun::start(subs());
    run.step(AgentReply::Written);
    assert_eq!(
        request_text(&run.step(AgentReply::ReadFailed("Interrupted".to_string())).request),
        "fail agent read echec (prepare-packages): Interrupted"
    );
    let (mut run, _) = AgentRun::start(subs());
    assert_eq!(
        request_text(&run.step(AgentReply::Line("x".to_string())).request),
        "fail reponse inattendue du systeme (prepare-packages)"
    );
}

#[test]
fn assistant_pages_run_in_the_mode_of_the_session() {
    let debug = page_context(true);
    assert!(debug.dry_run && debug.debug);
    let real = page_context(false);
    assert!(!real.dry_run && !real.debug);
    assert_eq!(
        validation_subcommands(&vec!["a.list".to_string()]),
        vec!["set-third-party-reactivation a.list".to_string(), "check-sources".to_string(), "disable-third-party".to_string()]
    );
}

#[test]
fn sources_validation_screens() {
    let s = sources_validated_screen(&vec![], None);
    assert_eq!(
        s.log,
        vec![
            "[info] Aucun depot tiers selectionne pour reactivation post-upgrade.".to_string(),
            "[info] Preferences UI sauvegardees (selection des depots tiers).".to_string(),
        ]
    );
    assert_eq!((s.header.as_str(), s.tone, s.page), ("Sources validees", StatusTone::Success, Some(3)));
    let s = sources_validated_screen(&vec!["a.list".to_string(), "b.sources".to_string()], Some("disk full".to_string()));
    assert_eq!(
        s.log,
        vec![
            "[info] Depots tiers selectionnes pour reactivation post-upgrade: a.list, b.sources".to_string(),
            "[warn] Impossible de sauvegarder la session: disk full".to_string(),
        ]
    );
    let s = sources_validation_failed_screen("commande agent en echec: check-sources");
    assert_eq!(s.log, vec!["[error] Echec validation sources: commande agent en echec: check-sources".to_string()]);
    assert_eq!((s.header.as_str(), s.tone, s.page), ("Erreur validation sources", StatusTone::Error, None));
}

#[test]
fn privileged_retry_screens() {
    let s = privileged_result_screen(None, PackageStep::PreparePackages);
    assert!(s.log.is_empty());
    assert_eq!((s.header.as_str(), s.tone, s.page), ("Preparation paquets terminee", StatusTone::Success, Some(4)));
    let s = privileged_result_screen(None, PackageStep::DryRunUpgrade);
    assert_eq!((s.header.as_str(), s.page), ("Dry-run valide", Some(5)));
    let s = privileged_result_screen(Some("x".to_string()), PackageStep::PreparePackages);
    assert_eq!(s.log, vec!["[error] Echec preparation privilegiee: x".to_string()]);
    assert_eq!((s.header.as_str(), s.tone, s.page), ("Erreur preparation paquets", StatusTone::Error, None));
    let s = privileged_result_screen(Some("y".to_string()), PackageStep::DryRunUpgrade);
    assert_eq!(s.log, vec!["[error] Echec dry-run privilegie: y".to_string()]);
    assert_eq!(s.header, "Erreur dry-run");
}

#[test]
fn reboot_screens() {
    let (s, sub) = reboot_request_screen(true);
    assert_eq!(sub, None);
    assert_eq!((s.header.as_str(), s.tone), ("Pret au redemarrage (debug)", StatusTone::Warn));
    assert_eq!(s.log.len(), 2);
    assert_eq!(s.log[0], "[warn] Redemarrage demande (debug): aucune action systeme reelle executee.");
    let (s, sub) = reboot_request_screen(false);
    assert_eq!(sub, Some("arm-and-reboot".to_string()));
    assert_eq!((s.header.as_str(), s.tone), ("Armemement upgrade hors-ligne...", StatusTone::Running));
    assert_eq!(
        s.log,
        vec!["[info] Configuration du mode upgrade hors-ligne (system-update.target + script non interactif)...".to_string()]
    );
    let s = reboot_result_screen(None);
    assert_eq!(s.log, vec!["[success] Upgrade hors-ligne arme. Redemarrage en cours...".to_string()]);
    let s = reboot_result_screen(Some("agent termine de maniere inattendue (arm-and-reboot)".to_string()));
    assert_eq!(s.log, vec!["[error] agent termine de maniere inattendue (arm-and-reboot)".to_string()]);
    assert_eq!((s.header.as_str(), s.tone), ("Erreur armer/reboot", StatusTone::Error));
}
