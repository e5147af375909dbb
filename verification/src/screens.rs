//! What the assistant shows around its pages: the context each page runs
//! with, the end of the sources validation, the privileged retries of the
//! package steps, and the reboot into the offline upgrade.
use vstd::prelude::*;
use crate::model::AppContext;
use crate::text::{join, join_strings, opt_view, string_of};
use crate::ui::{
    PackageStep, Screen, ScreenView, StatusTone, one_line, reactivation_command,
    reactivation_text, two_lines,
};

verus! {

/// The context of every run the assistant starts itself: in debug mode it
/// simulates, and traces.
pub fn page_context(debug: bool) -> (c: AppContext)
    ensures
        c == (AppContext { dry_run: debug, debug }),
{
    AppContext { dry_run: debug, debug }
}

/// The agent subcommands that validate the sources outside debug mode:
/// record the third-party sources to bring back, move the official
/// sources, then disable the third-party ones.
pub open spec fn validation_subcommands_spec(selected: Seq<Seq<char>>) -> Seq<Seq<char>> {
    seq![reactivation_text(selected), "check-sources"@, "disable-third-party"@]
}

pub fn validation_subcommands(selected: &Vec<String>) -> (v: Vec<String>)
    ensures
        v.deep_view() == validation_subcommands_spec(selected.deep_view()),
{
    let mut v: Vec<String> = Vec::new();
    v.push(reactivation_command(selected));
    v.push(string_of("check-sources"));
    v.push(string_of("disable-third-party"));
    proof {
        assert(v.deep_view() =~= validation_subcommands_spec(selected.deep_view()));
    }
    v
}

/// The log line on the third-party sources chosen to come back.
pub open spec fn selection_line(selected: Seq<Seq<char>>) -> Seq<char> {
    if selected.len() == 0 {
        "[info] Aucun depot tiers selectionne pour reactivation post-upgrade."@
    } else {
        "[info] Depots tiers selectionnes pour reactivation post-upgrade: "@ + join(selected, ", "@)
    }
}

/// Once the sources are validated: the selection, whether it was saved,
/// and the packages page.
pub open spec fn sources_validated(selected: Seq<Seq<char>>, save_error: Option<Seq<char>>) -> ScreenView {
    ScreenView {
        log: seq![
            selection_line(selected),
            match save_error {
                Some(e) => "[warn] Impossible de sauvegarder la session: "@ + e,
                None => "[info] Preferences UI sauvegardees (selection des depots tiers)."@,
            },
        ],
        header: "Sources validees"@,
        tone: StatusTone::Success,
        page: Some(3),
    }
}

pub fn sources_validated_screen(selected: &Vec<String>, save_error: Option<String>) -> (s: Screen)
    ensures
        s@ == sources_validated(
            selected.deep_view(),
            opt_view(save_error),
        ),
{
    let ghost se = opt_view(save_error);
    proof {
        assert(selected.deep_view().len() == selected@.len());
    }
    let first = if selected.len() == 0 {
        string_of("[info] Aucun depot tiers selectionne pour reactivation post-upgrade.")
    } else {
        string_of("[info] Depots tiers selectionnes pour reactivation post-upgrade: ").concat(
            join_strings(selected, ", ").as_str(),
        )
    };
    let second = match &save_error {
        Some(e) => string_of("[warn] Impossible de sauvegarder la session: ").concat(e.as_str()),
        None => string_of("[info] Preferences UI sauvegardees (selection des depots tiers)."),
    };
    proof {
        assert(first@ == selection_line(selected.deep_view()));
        assert(second@ == sources_validated(selected.deep_view(), se).log[1]);
    }
    let s = Screen {
        log: two_lines(first, second),
        header: string_of("Sources validees"),
        tone: StatusTone::Success,
        page: Some(3),
    };
    proof {
        let want = sources_validated(selected.deep_view(), se);
        assert(s@.log =~= want.log);
        assert(s@.header == want.header);
        assert(s@.page == want.page);
    }
    s
}

/// When the sources validation failed with `error`.
pub open spec fn sources_validation_failed(error: Seq<char>) -> ScreenView {
    ScreenView {
        log: seq!["[error] Echec validation sources: "@ + error],
        header: "Erreur validation sources"@,
        tone: StatusTone::Error,
        page: None,
    }
}

pub fn sources_validation_failed_screen(error: &str) -> (s: Screen)
    ensures
        s@ == sources_validation_failed(error@),
{
    Screen {
        log: one_line(string_of("[error] Echec validation sources: ").concat(error)),
        header: string_of("Erreur validation sources"),
        tone: StatusTone::Error,
        page: None,
    }
}

/// Once a package step retried with elevated rights is over: its page,
/// or the error that the agent run ended with.
pub open spec fn privileged_result(error: Option<Seq<char>>, step: PackageStep) -> ScreenView {
    let dry = step == PackageStep::DryRunUpgrade;
    match error {
        None => ScreenView {
            log: seq![],
            header: if dry {
                "Dry-run valide"@
            } else {
                "Preparation paquets terminee"@
            },
            tone: StatusTone::Success,
            page: Some(if dry {
                5i32
            } else {
                4i32
            }),
        },
        Some(e) => ScreenView {
            log: seq![
                if dry {
                    "[error] Echec dry-run privilegie: "@ + e
                } else {
                    "[error] Echec preparation privilegiee: "@ + e
                },
            ],
            header: if dry {
                "Erreur dry-run"@
            } else {
                "Erreur preparation paquets"@
            },
            tone: StatusTone::Error,
            page: None,
        },
    }
}

pub fn privileged_result_screen(error: Option<String>, step: PackageStep) -> (s: Screen)
    ensures
        s@ == privileged_result(
            opt_view(error),
            step,
        ),
{
    let dry = step == PackageStep::DryRunUpgrade;
    match error {
        None => {
            let log: Vec<String> = Vec::new();
            proof {
                assert(log.deep_view() =~= Seq::<Seq<char>>::empty());
            }
            Screen {
                log,
                header: if dry {
                    string_of("Dry-run valide")
                } else {
                    string_of("Preparation paquets terminee")
                },
                tone: StatusTone::Success,
                page: Some(if dry { 5 } else { 4 }),
            }
        },
        Some(e) => Screen {
            log: one_line(
                if dry {
                    string_of("[error] Echec dry-run privilegie: ").concat(e.as_str())
                } else {
                    string_of("[error] Echec preparation privilegiee: ").concat(e.as_str())
                },
            ),
            header: if dry {
                string_of("Erreur dry-run")
            } else {
                string_of("Erreur preparation paquets")
            },
            tone: StatusTone::Error,
            page: None,
        },
    }
}

/// The agent subcommand that arms the offline upgrade and reboots.
pub open spec fn arm_subcommand() -> Seq<char> {
    "arm-and-reboot"@
}

/// What a reboot request shows, and the agent subcommand to run, if any:
/// in debug mode nothing is run and the assistant says so; otherwise the
/// offline upgrade is armed.
pub open spec fn reboot_request(debug: bool) -> (ScreenView, Option<Seq<char>>) {
    if debug {
        (
            ScreenView {
                log: seq![
                    "[warn] Redemarrage demande (debug): aucune action systeme reelle executee."@,
                    "[info] Execution cible: mode non interactif avec options par defaut (DEBIAN_FRONTEND=noninteractive)."@,
                ],
                header: "Pret au redemarrage (debug)"@,
                tone: StatusTone::Warn,
                page: None,
            },
            None,
        )
    } else {
        (
            ScreenView {
                log: seq![
                    "[info] Configuration du mode upgrade hors-ligne (system-update.target + script non interactif)..."@,
                ],
                header: "Armemement upgrade hors-ligne..."@,
                tone: StatusTone::Running,
                page: None,
            },
            Some(arm_subcommand()),
        )
    }
}

pub fn reboot_request_screen(debug: bool) -> (r: (Screen, Option<String>))
    ensures
        (r.0@, match r.1 {
            Some(c) => Some(c@),
            None => None,
        }) == reboot_request(debug),
{
    if debug {
        (
            Screen {
                log: two_lines(
                    string_of("[warn] Redemarrage demande (debug): aucune action systeme reelle executee."),
                    string_of(
                        "[info] Execution cible: mode non interactif avec options par defaut (DEBIAN_FRONTEND=noninteractive).",
                    ),
                ),
                header: string_of("Pret au redemarrage (debug)"),
                tone: StatusTone::Warn,
                page: None,
            },
            None,
        )
    } else {
        (
            Screen {
                log: one_line(
                    string_of(
                        "[info] Configuration du mode upgrade hors-ligne (system-update.target + script non interactif)...",
                    ),
                ),
                header: string_of("Armemement upgrade hors-ligne..."),
                tone: StatusTone::Running,
                page: None,
            },
            Some(string_of("arm-and-reboot")),
        )
    }
}

/// Once the agent armed the offline upgrade, or failed to: the header
/// keeps the arming status while the machine reboots.
pub open spec fn reboot_result(error: Option<Seq<char>>) -> ScreenView {
    match error {
        None => ScreenView {
            log: seq!["[success] Upgrade hors-ligne arme. Redemarrage en cours..."@],
            header: "Armemement upgrade hors-ligne..."@,
            tone: StatusTone::Running,
            page: None,
        },
        Some(e) => ScreenView {
            log: seq!["[error] "@ + e],
            header: "Erreur armer/reboot"@,
            tone: StatusTone::Error,
            page: None,
        },
    }
}

pub fn reboot_result_screen(error: Option<String>) -> (s: Screen)
    ensures
        s@ == reboot_result(
            opt_view(error),
        ),
{
    match error {
        None => Screen {
            log: one_line(string_of("[success] Upgrade hors-ligne arme. Redemarrage en cours...")),
            header: string_of("Armemement upgrade hors-ligne..."),
            tone: StatusTone::Running,
            page: None,
        },
        Some(e) => Screen {
            log: one_line(string_of("[error] ").concat(e.as_str())),
            header: string_of("Erreur armer/reboot"),
            tone: StatusTone::Error,
            page: None,
        },
    }
}

} // verus!
