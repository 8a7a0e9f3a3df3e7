//! Jobs that install and start harnesses.
use yantrik_ui::harness_install::{
    busy, clear_settled, finish, install, not_run, not_watched, outcome, said, shell_quote, spawn, start, unit_is_loaded, views, Board,
    Ended, Install, JobKind, JobView, Manifest, Staging,
};

const LOG_LINES: usize = 6;

fn board() -> Board {
    Board::new(LOG_LINES)
}

fn manifest(id: &str, command: &str) -> Manifest {
    Manifest {
        id: id.to_string(),
        install: Some(Install { command: command.to_string(), doing: "doing the thing".into() }),
        unit: String::new(),
    }
}

fn view(board: &Board, id: &str) -> Option<JobView> {
    views(board).into_iter().find(|(name, _)| name == id).map(|(_, v)| v)
}

fn staging(known: bool, beside: bool) -> Staging {
    Staging { known, beside, staged: "/opt/it's/pi.service".into(), user_units: "/home/me/units".into() }
}

#[test]
fn a_job_is_running_the_moment_it_is_asked_for() {
    let mut b = board();
    let id = "job-running";
    assert_eq!(install(&mut b, &manifest(id, "sleep 0.4; echo done")), Ok("sleep 0.4; echo done".to_string()));
    let v = view(&b, id).unwrap();
    assert!(v.running);
    assert_eq!(v.doing, "doing the thing");
    assert!(busy(&b));

    said(&mut b, id, "done\n");
    finish(&mut b, id, None);
    let v = view(&b, id).unwrap();
    assert!(!v.running);
    assert_eq!(v.error, "");
    assert!(v.log.contains("done"), "{}", v.log);
    assert!(!busy(&b));
}

#[test]
fn output_arrives_while_it_is_still_going() {
    let mut b = board();
    let id = "job-streaming";
    install(&mut b, &manifest(id, "echo first; sleep 1.5; echo last")).unwrap();
    said(&mut b, id, "first");
    let v = view(&b, id).unwrap();
    assert!(v.log.contains("first"));
    assert!(v.running, "the first line arrived only after it had finished");
    said(&mut b, id, "last");
    finish(&mut b, id, None);
    assert!(view(&b, id).unwrap().log.contains("last"));
}

#[test]
fn what_it_says_on_stderr_is_shown_too() {
    let mut b = board();
    let id = "job-stderr";
    install(&mut b, &manifest(id, "echo 'npm ERR! 404 Not Found' >&2; exit 1")).unwrap();
    said(&mut b, id, "npm ERR! 404 Not Found");
    finish(&mut b, id, outcome(&Ended::Exited(1)).as_deref());
    let v = view(&b, id).unwrap();
    assert!(v.log.contains("404 Not Found"), "{}", v.log);
    assert_eq!(v.error, "install failed: it exited 1");
}

#[test]
fn only_the_tail_of_a_talkative_command_is_kept() {
    let mut b = board();
    let id = "job-tail";
    install(&mut b, &manifest(id, "for i in $(seq 1 200); do echo line $i; done")).unwrap();
    for i in 1..=200 {
        said(&mut b, id, &format!("line {i}  "));
        said(&mut b, id, "   ");
    }
    let v = view(&b, id).unwrap();
    assert_eq!(v.log.lines().count(), LOG_LINES);
    assert!(v.log.contains("line 200"));
    assert!(!v.log.contains("line 1\n"));
}

#[test]
fn a_second_press_while_it_runs_is_refused_rather_than_run_twice() {
    let mut b = board();
    let id = "job-twice";
    install(&mut b, &manifest(id, "sleep 1")).unwrap();
    let again = install(&mut b, &manifest(id, "sleep 1"));
    assert!(again.as_ref().unwrap_err().contains("already running"));
    assert_eq!(again, Err("a install for job-twice is already running".to_string()));
    finish(&mut b, id, None);
    assert!(install(&mut b, &manifest(id, "sleep 1")).is_ok(), "and once it is over it may be asked for again");
}

#[test]
fn a_harness_with_nothing_to_install_says_so_instead_of_running_an_empty_shell() {
    let mut b = board();
    let bare = Manifest { id: "openclaw".into(), install: None, unit: String::new() };
    let refused = install(&mut b, &bare).unwrap_err();
    assert!(refused.contains("no install command"), "{refused}");
    assert!(view(&b, "openclaw").is_none(), "a refusal must not leave a job on the board");
}

#[test]
fn a_harness_with_no_unit_is_never_started() {
    let mut b = board();
    let bare = Manifest { id: "hermes".into(), install: None, unit: String::new() };
    let refused = start(&mut b, &bare, &staging(true, true)).unwrap_err();
    assert!(refused.contains("its own service"), "{refused}");
}

#[test]
fn a_finished_job_is_forgotten_once_the_harness_is_there() {
    let mut b = board();
    let id = "job-forgotten";
    install(&mut b, &manifest(id, "true")).unwrap();
    finish(&mut b, id, None);
    clear_settled(&mut b, &["something-else".to_string()]);
    assert!(view(&b, id).is_some(), "it is not attached; the row still needs its outcome");
    clear_settled(&mut b, &[id.to_string()]);
    assert!(view(&b, id).is_none(), "it attached, so the row is about the present now");
}

#[test]
fn a_unit_nobody_knows_is_put_where_it_is_looked_for() {
    let mut b = board();
    let m = Manifest { id: "pi".into(), install: None, unit: "pi.service".into() };
    assert_eq!(
        start(&mut b, &m, &staging(false, true)),
        Ok("mkdir -p '/home/me/units' && cp '/opt/it'\\''s/pi.service' '/home/me/units' && systemctl --user daemon-reload && systemctl --user enable --now 'pi.service'".to_string())
    );
    assert_eq!(view(&b, "pi").unwrap().doing, "starting pi.service");
    let mut b = board();
    assert_eq!(start(&mut b, &m, &staging(true, false)), Ok("systemctl --user enable --now 'pi.service'".to_string()));
    let mut b = board();
    let refused = start(&mut b, &m, &staging(false, false)).unwrap_err();
    assert_eq!(refused, "systemd does not know pi.service and there is no pi.service beside the harness to install");
    assert!(!busy(&b));
}

#[test]
fn every_way_a_command_ends_is_said() {
    assert_eq!(outcome(&Ended::Well), None);
    assert_eq!(outcome(&Ended::Exited(-3)).unwrap(), "it exited -3");
    assert_eq!(outcome(&Ended::Killed).unwrap(), "it was killed");
    assert_eq!(outcome(&Ended::Lost("gone".into())).unwrap(), "could not wait for it: gone");
    assert_eq!(not_run("no sh"), "could not run it: no sh");
    assert_eq!(not_watched("no memory"), "no thread to watch it: no memory");
    assert_eq!(shell_quote("it's"), "'it'\\''s'");
}

#[test]
fn a_second_job_for_the_same_harness_is_refused_by_name() {
    let mut b = board();
    assert_eq!(spawn(&mut b, "pi", JobKind::Install, "installing"), Ok(()));
    let err = spawn(&mut b, "pi", JobKind::Start, "starting").unwrap_err();
    assert_eq!(err, "a install for pi is already running");
    assert_eq!(spawn(&mut b, "hermes", JobKind::Start, "starting"), Ok(()));
    assert_eq!((JobKind::Install.verb(), JobKind::Start.verb()), ("install", "start"));
}

#[test]
fn a_unit_is_known_once_it_is_loaded() {
    assert!(unit_is_loaded("LoadState=loaded\n"));
    assert!(!unit_is_loaded("LoadState=not-found\n") && !unit_is_loaded(""));
}
