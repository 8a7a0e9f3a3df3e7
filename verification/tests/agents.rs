//! The agents the shell knows: what is described of them, and what they may reach.
use yantrik_ui::agents::feed::{ends_answer, main_agent, meta_for, Chunk, Effect, Listed, Reader};
use yantrik_ui::agents::launch::{
    became, children_to_stop, may_open, reachable, start, stop, stop_note, stopped_with, Child, LiveAgent, Stopped,
};
use yantrik_ui::agents::reaches::{Entry, Reaches, MOST};
use yantrik_ui::agents::{
    among, dir, for_describe, settle_approvals, AgentId, AgentRow, CommandRun, Counts, RunningJob, Saving, Waiting,
    SAVE_EVERY, WINDOW_TITLE_PREFIX,
};
use yantrik_ui::json::{parse, render, Json};

/// The JSON a text spells.
fn j(text: &str) -> Json {
    parse(text).expect("a JSON text")
}

fn id(s: &str) -> AgentId {
    AgentId(s.to_string())
}

fn row(agent: &AgentId, state: &str) -> AgentRow {
    AgentRow {
        id: agent.clone(),
        mind: "pi".into(),
        title: "tidy the photos folder".into(),
        state: state.into(),
        since: 1_790_000_000,
        status: String::new(),
        waiting_for_you: state == "waiting_for_you",
        pending_approvals: vec![],
        touched: 1_790_000_050,
        parent: None,
        children: vec![],
        turns: 1,
        calls: 0,
        failed_calls: 0,
        commands: vec![CommandRun { line: "ls".into(), exit: Some(0), state: "done".into() }],
        files: vec![],
        approvals_asked: 1,
        approvals_answered: 0,
        conversations: true,
    }
}

/// `describe shell` → `agents`: each agent's id, mind, title and state, whether it needs the
/// person, the commands the shell is running for it now, when it last did anything, and the
/// agents it started — and never a token.
#[test]
fn describe_says_who_needs_you_what_runs_and_when_it_last_did_anything() {
    let pi = AgentId::new("pi", "c-describe");
    let kid = AgentId::new("pi", "c-describe-kid");
    let mut parent = row(&pi, "waiting_for_you");
    parent.pending_approvals = vec!["appr-describe".into()];
    parent.children = vec![kid.clone()];
    let mut child = row(&kid, "working");
    child.parent = Some(pi.clone());
    let running = [RunningJob { agent: pi.clone(), job: j(r#"{"job": "j-1", "command": "sleep 30"}"#) }];
    let counts = Counts { active: 2, needs_you: 1, complete: 0, all: 2 };

    let described = for_describe(&[parent, child], &running, counts, 1_790_000_060);
    let Some(Json::Array(agents)) = described.get("agents") else { panic!("no agents") };
    let entry = &agents[0];
    assert_eq!(entry.get("id").and_then(|v| v.as_str()), Some("pi:c-describe"));
    assert_eq!(entry.get("mind").and_then(|v| v.as_str()), Some("pi"));
    assert_eq!(entry.get("title").and_then(|v| v.as_str()), Some("tidy the photos folder"));
    assert_eq!(entry.get("state").and_then(|v| v.as_str()), Some("waiting_for_you"));
    assert_eq!(entry.get("needs_you"), Some(&Json::Bool(true)));
    assert_eq!(render(entry.get("pending_approvals").unwrap()), r#"["appr-describe"]"#);
    assert_eq!(render(entry.get("running_jobs").unwrap()), r#"[{"command":"sleep 30","job":"j-1"}]"#);
    assert_eq!(render(entry.get("last_activity").unwrap()), "1790000050");
    assert_eq!(render(entry.get("last_activity_secs_ago").unwrap()), "10");
    assert_eq!(render(entry.get("children").unwrap()), r#"["pi:c-describe-kid"]"#);
    let kid_entry = &agents[1];
    assert_eq!(kid_entry.get("parent").and_then(|v| v.as_str()), Some("pi:c-describe"));
    assert_eq!(kid_entry.get("needs_you"), Some(&Json::Bool(false)));
    assert!(!render(&described).contains("agent_token"));
}

/// A command that sits at a prompt needs the person.
#[test]
fn a_command_at_a_prompt_needs_the_person() {
    let pi = id("pi:c-1");
    let running = [RunningJob { agent: pi.clone(), job: j(r#"{"waiting_for_input": true}"#) }];
    let counts = || Counts { active: 1, needs_you: 0, complete: 0, all: 1 };
    let needs = |running: &[RunningJob]| {
        render(&for_describe(&[row(&pi, "working")], running, counts(), 1_790_000_060)).contains(r#""needs_you":true"#)
    };
    assert!(needs(&running));
    assert!(!needs(&[]));
}

#[test]
fn an_agents_name_gives_its_parts_back() {
    let a = AgentId::new("pi", "c-7:x");
    assert_eq!((a.0.as_str(), a.harness().as_str(), a.conversation().as_str()), ("pi:c-7:x", "pi", "c-7:x"));
    assert_eq!(id("pi").conversation(), "");
    assert!(among(&[id("a:b"), a.copy()], &a) && !among(&[], &a) && a.is(&a.copy()));
    assert_eq!(main_agent("pi"), id("pi:main"));
}

#[test]
fn answered_approvals_are_settled_in_order() {
    let waiting = |n: &str| Waiting { agent: id("pi:c"), request: n.into() };
    let out = settle_approvals(vec![waiting("1"), waiting("2"), waiting("3")], vec![Some("yes"), None, Some("no")]);
    let said: Vec<(&str, &str)> = out.iter().map(|(w, s)| (w.request.as_str(), *s)).collect();
    assert_eq!(said, [("1", "yes"), ("3", "no")]);
}

#[test]
fn an_agent_is_started_stopped_and_reached() {
    assert_eq!(start("pi", " tidy ", "companion"), Ok("tidy".to_string()));
    assert_eq!(start("pi", "  ", "companion").unwrap_err(), "Say what the agent is to do.");
    assert!(start("companion", "x", "companion").unwrap_err().contains("in the Lens"));
    let live = [LiveAgent { id: id("hermes:main"), conversations: false, harness_name: "Hermes".into() }];
    assert_eq!(became(Ok(id("pi:c-1")), "pi", &live, None), Ok(id("pi:c-1")));
    assert_eq!(became(Err("full".into()), "hermes", &live, None), Ok(id("hermes:main")), "the person's own conversation");
    assert_eq!(became(Err("full".into()), "hermes", &live, Some(&id("pi:c-1"))), Err("full".to_string()));
    assert_eq!(became(Err("full".into()), "pi", &live, None), Err("full".to_string()));
    assert!(may_open(&id("pi:c-1"), false).is_ok() && may_open(&id("pi:c-1"), true).is_err());
    assert!(stop(&id("companion:main"), "companion").is_err() && stop(&id("pi:c-1"), "companion").is_ok());
    let child = |name: &str, working: bool| Child { id: id(name), working };
    let kids = children_to_stop(&[child("a:1", true), child("a:2", false), child("a:3", false)], &[id("a:3")]);
    assert_eq!(kids, [id("a:1"), id("a:3")]);
    let mut stopped = Stopped { stopped: true, commands: 1, approvals: 0, children: vec![] };
    stopped.with_child(id("a:1"), 2, 3);
    assert_eq!((stopped.commands, stopped.approvals, stopped.children.len()), (3, 3, 1));
    assert!(stop_note(true, 2).contains('2'));
    assert_eq!(stopped_with(&id("pi:c-1")), "Stopped with `pi:c-1`, the agent that started it.");
    assert!(reachable(&id("pi:c-1"), &[id("pi:c-1")], &["pi".to_string()], "companion"));
    assert!(reachable(&id("hermes:main"), &[], &["hermes".to_string()], "companion"));
    assert!(!reachable(&id("pi:c-1"), &[], &["pi".to_string()], "companion"));
    assert!(!reachable(&id("companion:main"), &[], &["companion".to_string()], "companion"));
}

/// What a mind streams becomes text, calls, replacements and notes.
#[test]
fn a_stream_is_read_as_it_comes() {
    let mut reader = Reader::new(false);
    let said = reader.chunk(Chunk::Text("Hello".into()));
    assert!(matches!(&said[..], [Effect::Text(t)] if t == "Hello"));
    let (_, ok) = reader.finish(None);
    assert!(ok);
    let mut failing = Reader::new(false);
    failing.chunk(Chunk::Failed("it broke".into()));
    assert!(!failing.finish(None).1, "a failure is not a good end");
    assert!(ends_answer(&Chunk::Text("__DONE__".into()), true));
    assert!(!ends_answer(&Chunk::Text("__DONE__".into()), false));
    let live = [LiveAgent { id: id("pi:c-1"), conversations: true, harness_name: "Pi".into() }];
    assert_eq!(meta_for(&id("pi:c-1"), &live, &[]).mind, "Pi");
    let listed = [Listed { id: "pi".into(), name: "Pi the mind".into() }];
    assert_eq!(meta_for(&id("pi:c-2"), &[], &listed).mind, "Pi the mind");
}

/// One reach for each agent, the last one held, and none once it is let go.
#[test]
fn a_reach_is_held_and_let_go() {
    let mut reaches = Reaches::new();
    let hold = |digest: &str, agent: &str, reach: &str| Entry {
        token_sha256: digest.into(),
        agent: agent.into(),
        reach: j(reach),
    };
    reaches.hold(hold("d1", "pi:c-1", "1"));
    reaches.hold(hold("d2", "pi:c-1", "2"));
    assert_eq!(reaches.lookup("d1"), None);
    assert_eq!(reaches.lookup("d2").map(|r| render(&r)), Some("2".to_string()));
    assert_eq!(reaches.of("pi:c-1").map(|r| render(&r)), Some("2".to_string()));
    assert!(reaches.release("pi:c-1") && !reaches.release("pi:c-1"));
    assert_eq!(reaches.of("pi:c-1"), None);
    for n in 0..MOST + 5 {
        reaches.hold(hold(&format!("d{n}"), &format!("pi:{n}"), "0"));
    }
    assert_eq!(reaches.of("pi:0"), None, "the oldest makes room");
    reaches.reset();
    assert_eq!(reaches.of("pi:68"), None);
}

#[test]
fn sessions_are_kept_below_the_persons_data() {
    assert_eq!(dir(Some(b"/data"), Some(b"/home/me")), b"/data/yantrik/agents");
    assert_eq!(dir(Some(b"data"), Some(b"/home/me")), b"/home/me/.local/share/yantrik/agents");
    assert_eq!(dir(None, Some(b"/home/me/")), b"/home/me/.local/share/yantrik/agents");
    assert_eq!(dir(None, None), b"/.local/share/yantrik/agents");
    assert_eq!(WINDOW_TITLE_PREFIX, "Agent \u{b7} ");
}

#[test]
fn sessions_are_written_out_at_most_so_often() {
    let mut saving = Saving::new(5);
    assert!(!saving.due(4) && !saving.due(5 + SAVE_EVERY - 1));
    assert!(saving.due(5 + SAVE_EVERY));
    assert!(!saving.due(6 + SAVE_EVERY), "the wait starts over");
    assert!(saving.due(5 + 2 * SAVE_EVERY));
}

/// A panel that went away leaves its turn unfinished, and the session says why.
#[test]
fn a_turn_nobody_listens_to_any_more_says_so() {
    let mut reader = Reader::new(false);
    reader.chunk(Chunk::Text("   ".into()));
    let (effects, ok) = reader.lens_turn_ended(false);
    assert!(!ok);
    assert!(
        matches!(&effects[..], [Effect::Text(t), Effect::Note(n)]
            if t == "   " && n == "The conversation panel stopped listening."),
        "{effects:?}"
    );
    let (effects, ok) = Reader::new(false).lens_turn_ended(true);
    assert!(ok && effects.is_empty());
}
