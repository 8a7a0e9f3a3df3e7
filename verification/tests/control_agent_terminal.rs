//! Commands that outlive the call that started them.
use yantrik_ui::agents::AgentId;
use yantrik_ui::control_agent_terminal::{
    actions, answer_json, cwd_arg, for_describe, human_duration, input_answer, job_arg, kill_answer, late_note,
    typed_arg, wait_arg, JobState, Late, RunAnswer, RunningJob, ENDS_KEPT, NOTE_COMMAND_CHARS,
};
use yantrik_ui::control_agents::{Amount, Given, Wait};
use yantrik_ui::json::{parse, render, string, Json};

/// A note stays short.
const MAX_NOTE_BYTES: usize = 1024;

/// The JSON a text spells.
fn j(text: &str) -> Json {
    parse(text).expect("a JSON text")
}

fn answer(job: &str, running: bool) -> RunAnswer {
    RunAnswer {
        job: job.to_string(),
        agent: AgentId::new("pi", "c-7f3a91"),
        command: "cargo build --release".to_string(),
        cwd: "/home/me/proj".to_string(),
        cwd_after: if running { None } else { Some("/home/me/proj/target".to_string()) },
        state: if running { JobState::Running { waiting_for_input: false } } else { JobState::Exited { code: 101 } },
        killed: false,
        elapsed_secs: 134,
        under_a_second: String::new(),
        tail: "Compiling a\nCompiling b\nerror[E0425]: cannot find value `x`\nerror: could not compile".to_string(),
    }
}

#[test]
fn an_end_is_owed_only_when_the_agents_last_word_on_it_was_running() {
    let mut late = Late::new();
    // Told running, then it ends: owed.
    assert_eq!(late.told(&answer("j1", true)), None);
    assert_eq!(late.finished(&answer("j1", false)), Some(answer("j1", false)));
    assert!(late.counts() == (0, 0), "owed once, and settled");

    // Ended within the call that started it: the answer carried it, nothing is owed.
    assert_eq!(late.finished(&answer("j2", false)), None);
    assert_eq!(late.told(&answer("j2", false)), None);
    assert!(late.counts() == (0, 0));
}

#[test]
fn an_agent_waiting_on_its_command_again_is_answered_by_that_call_not_by_a_note() {
    let mut late = Late::new();
    let pi = AgentId::new("pi", "c-7f3a91");
    late.told(&answer("j1", true));
    // `agent_job` begins, and the command ends while it waits: its answer carries the end.
    late.engage(&pi, "j1");
    assert_eq!(late.finished(&answer("j1", false)), None);
    assert_eq!(late.told(&answer("j1", false)), None);
    // …but when that call too runs out first, the end is owed again.
    late.told(&answer("j3", true));
    late.engage(&pi, "j3");
    late.told(&answer("j3", true));
    assert!(late.finished(&answer("j3", false)).is_some());
    // Another agent naming this job does not take its note away.
    late.told(&answer("j4", true));
    late.engage(&AgentId::new("deepseek", "c-02be44"), "j4");
    assert!(late.finished(&answer("j4", false)).is_some());
}

#[test]
fn an_end_between_the_look_and_the_record_is_still_reported() {
    // The answer was read as running, and the job ended before that answer reached here.
    let mut late = Late::new();
    assert_eq!(late.finished(&answer("j1", false)), None);
    assert_eq!(late.told(&answer("j1", true)), Some(answer("j1", false)));
    assert!(late.counts() == (0, 0));
    // And the record of unclaimed ends is bounded.
    for n in 0..ENDS_KEPT + 10 {
        late.finished(&answer(&format!("x{n}"), false));
    }
    assert_eq!(late.counts().1, ENDS_KEPT);
}

#[test]
fn the_note_says_which_command_how_it_ended_where_and_its_last_lines() {
    let note = late_note(&answer("job-1a2b", false));
    for said in ["`cargo build --release`", "job-1a2b", "exit code 101", "after 2m 14s",
                 "in /home/me/proj/target", "error: could not compile"] {
        assert!(note.contains(said), "{said:?} missing: {note}");
    }
    assert!(note.len() < MAX_NOTE_BYTES, "{} bytes", note.len());

    let mut killed = answer("job-9", false);
    killed.state = JobState::Signalled { name: Some("SIGTERM".to_string()) };
    killed.killed = true;
    killed.tail = String::new();
    killed.command = "x".repeat(500);
    let note = late_note(&killed);
    assert!(note.contains("ended by SIGTERM (it was stopped)") && note.contains("It printed nothing."), "{note}");
    assert!(note.contains(&format!("`{}…`", "x".repeat(NOTE_COMMAND_CHARS))), "the command is cut: {note}");

    let mut chatty = answer("job-8", false);
    chatty.tail = "é".repeat(2000);
    assert!(late_note(&chatty).len() < MAX_NOTE_BYTES);
}

/// Who is asking is never an argument.
#[test]
fn no_agent_action_takes_the_token_as_an_argument() {
    for spec in actions() {
        for banned in ["agent_token", "token", "agent"] {
            assert!(spec.params.iter().all(|p| p.name != banned), "{} takes `{banned}`", spec.name);
        }
        assert!(spec.about.contains("beside `args`"), "{} does not say where the token goes", spec.name);
    }
}

#[test]
fn a_command_is_named_waited_for_and_typed_into() {
    assert_eq!(job_arg(&j(r#"{"job": " j-1 "}"#)), Ok("j-1".to_string()));
    assert!(job_arg(&j("{}")).unwrap_err().contains("`job` is empty"));
    assert_eq!(cwd_arg(&j(r#"{"cwd": "  "}"#)), None);
    assert_eq!(cwd_arg(&j(r#"{"cwd": "/tmp"}"#)), Some("/tmp".to_string()));
    assert_eq!(typed_arg(&j(r#"{"text": "y\n"}"#)), Ok("y\n".to_string()));
    assert!(typed_arg(&j("{}")).is_err());
    let usual = Wait { secs: 120, nanos: 0 };
    let n = |floor: i64, fraction: bool| Given::Number(Amount { floor, fraction, nanos: 0 });
    assert_eq!(wait_arg(Given::Nothing, usual, 600), Ok(usual));
    assert_eq!(wait_arg(n(0, false), usual, 600), Ok(Wait { secs: 0, nanos: 0 }));
    assert_eq!(wait_arg(n(600, false), usual, 600), Ok(Wait { secs: 600, nanos: 0 }));
    assert!(wait_arg(n(600, true), usual, 600).unwrap_err().contains("between 0 and 600 seconds"));
    assert!(wait_arg(n(-1, false), usual, 600).is_err());
    assert_eq!(wait_arg(Given::Other, usual, 600), Err("`wait` is a number of seconds.".to_string()));
}

#[test]
fn a_duration_reads_as_a_person_says_it() {
    assert_eq!(human_duration(0, "0.4s"), "0.4s");
    assert_eq!(human_duration(59, ""), "59 s");
    assert_eq!(human_duration(134, ""), "2m 14s");
    assert_eq!(human_duration(3_720, ""), "1h 02m");
}

#[test]
fn an_answer_says_the_next_step() {
    let said = || vec![("job".to_string(), string("j-1"))];
    let running = Json::Object(answer_json(said(), &JobState::Running { waiting_for_input: false }));
    assert!(running.get("next").is_some(), "{}", render(&running));
    let ended = Json::Object(answer_json(said(), &JobState::Exited { code: 0 }));
    assert!(ended.get("next").is_none(), "{}", render(&ended));
    let typed = input_answer(said(), &JobState::Running { waiting_for_input: true }, "y\n");
    assert!(typed.get("job").is_some());
    let killed = kill_answer(said(), &JobState::Signalled { name: None }, true);
    assert!(killed.get("job").is_some());
}

#[test]
fn what_runs_is_described() {
    let job = RunningJob {
        job: "j-1".into(),
        agent: "pi:c-1".into(),
        command: "make ".repeat(60),
        elapsed_secs: 3,
        waiting_for_input: true,
    };
    let described = render(&for_describe(&[job]));
    assert!(described.contains("\"job\":\"j-1\"") && described.contains("\u{2026}"), "{described}");
}
