//! The actions the shell publishes.
use yantrik_ui::surface::Action;
use yantrik_ui::{
    control, control_agent_terminal, control_agents, control_approvals, control_editor, control_files,
    control_installer, control_recipes, control_update,
};

/// The words that would be a granting action if one existed.
const DECIDING: &[&str] = &["approve", "grant", "allow", "deny"];

/// The three that may carry one, and why each is not a way to decide anything:
/// `request_approval` asks, `approval_status` reads, `consume_approval` spends.
const PERMITTED: &[&str] = &["request_approval", "approval_status", "consume_approval"];

/// The words a secret would arrive under, in an action name or in one of its parameters.
const SECRET_WORDS: &[&str] =
    &["passphrase", "password", "passwd", "pin", "secret", "credential", "unlock"];

/// Actions whose name may contain one of the words above: `pin_app` pins an app tile to START.
const SECRET_PERMITTED: &[&str] = &["pin_app"];

/// Arguments whose names may contain one of those words. `pinned` is `pin_app`'s flag.
const SECRET_PARAM_PERMITTED: &[&str] = &["pinned"];

/// The words that would be a way to loosen the mode, or mint a session rule, if one existed.
const MODE_WORDS: &[&str] = &["mode", "rule", "bypass", "permission", "ceiling"];

/// The one action allowed to carry them, and why it is not a way to loosen anything:
/// `set_mind_mode` refuses every request that would make the desktop more permissive.
const MODE_PERMITTED: &[&str] = &["set_mind_mode"];

/// Every action, with the module that publishes it.
fn all_actions() -> Vec<(Action, String)> {
    let mut out = Vec::new();
    for (module, actions) in [
        ("control", control::actions()),
        ("control_agent_terminal", control_agent_terminal::actions()),
        ("control_agents", control_agents::actions()),
        ("control_approvals", control_approvals::actions()),
        ("control_editor", control_editor::actions()),
        ("control_files", control_files::actions()),
        ("control_installer", control_installer::actions(true)),
        ("control_recipes", control_recipes::actions()),
        ("control_update", control_update::actions()),
    ] {
        for action in actions {
            out.push((action, module.to_string()));
        }
    }
    out
}

fn published_actions() -> Vec<(String, String)> {
    all_actions().into_iter().map(|(a, module)| (a.name.to_string(), module)).collect()
}

/// The surface has no way to approve anything.
#[test]
fn approvals_published_actions_cannot_grant() {
    let actions = published_actions();
    assert!(
        actions.len() > 10,
        "only {} actions were found — the scan is not reading the control modules any more, \
         which would make this test pass by seeing nothing. Found: {actions:?}",
        actions.len()
    );

    let offenders: Vec<String> = actions
        .iter()
        .filter(|(name, _)| {
            let lower = name.to_ascii_lowercase();
            DECIDING.iter().any(|w| lower.contains(w)) && !PERMITTED.contains(&name.as_str())
        })
        .map(|(name, file)| format!("{name} (in {file})"))
        .collect();

    assert!(
        offenders.is_empty(),
        "the shell publishes an action that reads as a decision about permission: {}\n\n\
         A caller on the socket must not be able to approve, grant, allow or deny anything — \
         that is the one thing that makes an approval card mean something. Granting is a UI \
         callback (`on_approval_allow` in control_approvals.rs) and nothing else. If this \
         action genuinely does not decide, rename it so it does not read like it does.",
        offenders.join(", ")
    );
}

/// And the three that are allowed are actually there.
#[test]
fn approvals_the_three_asking_actions_are_published() {
    let names: Vec<String> = published_actions().into_iter().map(|(n, _)| n).collect();
    for wanted in PERMITTED {
        assert!(
            names.iter().any(|n| n == wanted),
            "`{wanted}` is not published any more; the approval flow is broken. Published: {}",
            names.join(", ")
        );
    }
}

/// Only a person's keystrokes can supply a passphrase: it could arrive as an action or as an
/// argument to one, and neither is published.
#[test]
fn no_published_action_can_carry_a_passphrase() {
    let actions = published_actions();
    assert!(
        actions.len() > 10,
        "only {} actions were found — the scan is not reading the control modules any more, \
         which would make this test pass by seeing nothing",
        actions.len()
    );

    let offenders: Vec<String> = actions
        .iter()
        .filter(|(name, _)| {
            let lower = name.to_ascii_lowercase();
            SECRET_WORDS.iter().any(|w| lower.contains(w))
                && !SECRET_PERMITTED.contains(&name.as_str())
        })
        .map(|(name, file)| format!("{name} (in {file})"))
        .collect();
    assert!(
        offenders.is_empty(),
        "the shell publishes an action that reads as a way to supply or handle a secret: {}\n\n\
         A caller on the socket must not be able to unlock the vault, set its passphrase, or \
         pass one to anything. The passphrase is typed into the card in `intent_lens.slint` \
         and reaches `vault_unlock::adopt` through `wire::vault`, and there is no other way \
         in. If this action genuinely carries no secret, rename it so it does not read like \
         it does.",
        offenders.join(", ")
    );

    // And no argument of any published action is named like one either. An action called
    // `configure` taking `passphrase` would pass the half above and be exactly the hole.
    let mut param_offenders: Vec<String> = Vec::new();
    for (action, module) in all_actions() {
        for param in action.params {
            let lower = param.name.to_ascii_lowercase();
            if SECRET_WORDS.iter().any(|w| lower.contains(w)) && !SECRET_PARAM_PERMITTED.contains(&param.name) {
                param_offenders.push(format!("{} (in {module})", param.name));
            }
        }
    }
    assert!(
        param_offenders.is_empty(),
        "a published action takes an argument named like a secret: {}\n\n\
         Nothing on the shell's socket may carry a passphrase, a PIN or a password, whatever \
         the action around it is called.",
        param_offenders.join(", ")
    );
}

/// Only a person can make this desktop more permissive: no action loosens it.
#[test]
fn mind_mode_only_a_person_can_raise_the_mode() {
    let actions = published_actions();
    assert!(
        actions.len() > 10,
        "only {} actions were found — the scan is not reading the control modules any more",
        actions.len()
    );

    let offenders: Vec<String> = actions
        .iter()
        .filter(|(name, _)| {
            let lower = name.to_ascii_lowercase();
            MODE_WORDS.iter().any(|w| lower.contains(w))
                && !MODE_PERMITTED.contains(&name.as_str())
        })
        .map(|(name, file)| format!("{name} (in {file})"))
        .collect();
    assert!(
        offenders.is_empty(),
        "the shell publishes an action that reads as a change to what the mind may do \
         unasked: {}\n\n\
         A caller on the socket must not be able to loosen the mode or mint a session rule. \
         `set_mind_mode` is the only published action about modes and it can only TIGHTEN. \
         If this action genuinely cannot loosen anything, rename it so it does not read like \
         it can.",
        offenders.join(", ")
    );
}

/// And `set_mind_mode` is actually published, so deleting it cannot make the scan pass.
#[test]
fn mind_mode_the_tightening_action_is_published() {
    let names: Vec<String> = published_actions().into_iter().map(|(n, _)| n).collect();
    // `show_mind_audit` is here because it is what the "See what it did" button on the
    // "Bypass ended" notification calls. The shell presses that button on the sender's own
    // control surface, so deleting the action would leave a button that silently does
    // nothing — and a dead control on a notification about permissions is worse than none.
    for wanted in ["set_mind_mode", "record_unasked_action", "show_mind_audit"] {
        assert!(
            names.iter().any(|n| n == wanted),
            "`{wanted}` is not published any more. Published: {}",
            names.join(", ")
        );
    }
}

/// Every action is published once.
#[test]
fn no_action_is_published_twice() {
    let names: Vec<String> = published_actions().into_iter().map(|(n, _)| n).collect();
    for (i, name) in names.iter().enumerate() {
        assert!(!names[..i].contains(name), "`{name}` is published twice");
    }
    assert_eq!(names.len(), 50);
}

/// Every grade is one the machine defines, and what cannot be taken back is graded for it.
#[test]
fn every_action_has_a_grade_of_the_ladder() {
    for (action, module) in all_actions() {
        assert!(
            yantrik_ui::mind_mode::grade_rank(action.grade).is_some(),
            "{} in {module} is graded `{}`",
            action.name,
            action.grade
        );
    }
    let grade = |name: &str| all_actions().into_iter().find(|(a, _)| a.name == name).unwrap().0.grade;
    assert_eq!(
        [grade("files_delete"), grade("installer_install"), grade("installer_reboot"), grade("apply_update")],
        ["dangerous"; 4]
    );
    assert_eq!([grade("lock"), grade("open_lens"), grade("open_app")], ["sensitive", "safe", "standard"]);
}

/// An installed desktop has no disk to install to, and offers none.
#[test]
fn only_an_installer_offers_to_install() {
    assert!(control_installer::actions(false).is_empty());
    let names: Vec<&str> = control_installer::actions(true).iter().map(|a| a.name).collect();
    assert_eq!(names, ["installer_set", "installer_go_to", "installer_install", "installer_reboot"]);
}
