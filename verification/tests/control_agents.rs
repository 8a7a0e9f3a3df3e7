//! Agents that start, direct and read other agents.
use yantrik_ui::agents::launch::{children_to_stop, send, Child, Say, Stopped, TurnBudget};
use yantrik_ui::agents::reaches::{published, Entry, Reaches};
use yantrik_ui::agents::AgentId;
use yantrik_ui::control_agents::{
    actions, agent_arg, budget_note, first_answer, hand_off, hand_off_from_screen, may_direct, may_read, may_start_child,
    mind_id, new_agent, pick_mind, read_agent, send_to_agent, sent_answer, show_agent, showing_answer, started_answer, stop_agent,
    stopped_answer, stopped_said, turn_text, turns_arg, wait_arg, wait_for_answer, watch_budget, within_reach, Amount,
    Answered, Attached, Budget, Caller, Family, Given, HandOff, Handed, HostMind, Item, OwnReach, Role, Session, Turn, Wait,
    ANSWER_MOST_BYTES,
};
use yantrik_ui::json::{parse, render, Json};

/// The JSON a text spells.
fn j(text: &str) -> Json {
    parse(text).expect("a JSON text")
}

fn id(s: &str) -> AgentId {
    AgentId(s.to_string())
}

fn text<'a>(v: &'a Json, key: &str) -> &'a str {
    v.get(key).and_then(|x| x.as_str()).unwrap_or_else(|| panic!("no text under `{key}`"))
}

fn whole(n: i64) -> Given {
    Given::Number(Amount { floor: n, fraction: false, nanos: 0 })
}

fn role(id: &str, name: &str, ceiling: &str, rank: u64) -> Role {
    Role {
        id: id.into(),
        name: name.into(),
        reach: format!("notes \u{b7} at most {ceiling}"),
        ceiling: ceiling.into(),
        rank,
        turns: 2,
        minutes: 15,
        runs_on: ["deepseek", "pi", "openclaw", "hermes"].iter().map(|s| s.to_string()).collect(),
    }
}

fn attached(id: &str, conversations: bool) -> Attached {
    Attached { id: id.into(), conversations }
}

fn minds() -> Vec<HostMind> {
    vec![
        HostMind { id: "companion".into(), name: "Companion".into(), builtin: true },
        HostMind { id: "glue".into(), name: "Glue".into(), builtin: false },
    ]
}

/// Nothing that shows or keeps arguments — `describe shell`, a card, an audit line — is handed a
/// token by these actions: none takes one, and none takes the caller's own agent either. The
/// one `agent` argument some of them take is the agent acted ON.
#[test]
fn no_agents_action_takes_the_token_or_the_callers_own_agent() {
    for spec in actions() {
        for banned in ["agent_token", "token", "parent", "caller", "grant"] {
            assert!(spec.params.iter().all(|p| p.name != banned), "{} takes `{banned}`", spec.name);
        }
    }
    let grade = |name: &str| actions().into_iter().find(|s| s.name == name).unwrap().grade;
    assert_eq!(
        [grade("new_agent"), grade("send_to_agent"), grade("stop_agent"), grade("read_agent"), grade("show_agent"), grade("hand_off")],
        ["sensitive", "standard", "standard", "safe", "safe", "sensitive"],
        "the grades the design settled: hand_off is gated like new_agent"
    );
}

/// Depth one, three children, and the host's own cap — checked without a host.
#[test]
fn a_child_cannot_start_agents_and_a_parent_holds_at_most_three() {
    let mut s = Family::new();
    let parent = id("pi:c-par001");
    s.upsert_agent(parent.clone(), None, None);
    let mut live = vec![parent.clone()];
    for n in 0..3 {
        let child = id(&format!("pi:c-kid00{n}"));
        s.upsert_agent(child.clone(), Some(parent.clone()), None);
        live.push(child);
    }
    let err = may_start_child(&parent, &s, &live).unwrap_err();
    assert!(err.contains("already has 3 agents running"), "{err}");
    // One of them stopped: its place is free again.
    live.retain(|a| a.0 != "pi:c-kid000");
    assert!(may_start_child(&parent, &s, &live).is_ok());
    // A child asking for a child of its own.
    let err = may_start_child(&id("pi:c-kid001"), &s, &live).unwrap_err();
    assert!(err.contains("one level only") && err.contains("pi:c-par001"), "{err}");
}

#[test]
fn an_agent_directs_only_the_agents_it_started_and_the_person_directs_any() {
    let mut s = Family::new();
    s.upsert_agent(id("pi:c-kid001"), Some(id("pi:c-par001")), None);
    s.upsert_agent(id("deepseek:c-other1"), None, None);
    let parent = Caller::Agent(id("pi:c-par001"));
    assert!(may_direct(&parent, &id("pi:c-kid001"), &s, "stop").is_ok());
    let err = may_direct(&parent, &id("deepseek:c-other1"), &s, "send to").unwrap_err();
    assert!(err.contains("not an agent you started"), "{err}");
    assert!(may_direct(&Caller::Agent(id("pi:c-kid001")), &id("pi:c-par001"), &s, "stop").is_err(), "a child does not direct its parent");
    assert!(may_direct(&Caller::NoAgent, &id("deepseek:c-other1"), &s, "stop").is_ok(), "the person directs any");
    // Reading: itself and its children, never a stranger.
    assert!(may_read(&parent, &id("pi:c-par001"), &s).is_ok());
    assert!(may_read(&parent, &id("pi:c-kid001"), &s).is_ok());
    assert!(may_read(&parent, &id("deepseek:c-other1"), &s).is_err());
}

#[test]
fn an_agent_is_named_the_way_describe_lists_it() {
    assert_eq!(agent_arg(&j(r#"{"agent": " pi:c-7f3a91 "}"#)).unwrap(), id("pi:c-7f3a91"));
    for bad in ["pi", ":c-1", "pi:", ""] {
        assert!(agent_arg(&j(&format!("{{\"agent\": \"{bad}\"}}"))).is_err(), "{bad}");
    }
}

/// A mind goes by its id or by the name a person reads; one that is not attached is said plainly.
#[test]
fn a_new_agent_needs_a_task_a_mind_and_leave() {
    let family = Family::new();
    let caller = Caller::Agent(id("glue:c-1"));
    let how = new_agent(&caller, "Glue", "write the changelog", None, &family, &[], &minds()).unwrap();
    assert_eq!((how.mind.as_str(), how.parent), ("glue", Some(id("glue:c-1"))));
    let how = new_agent(&Caller::NoAgent, "glue", "fifth", None, &family, &[], &minds()).unwrap();
    assert_eq!(how.parent, None);
    let err = new_agent(&caller, "hermes", "x", None, &family, &[], &minds()).unwrap_err();
    assert!(err.contains("no mind called `hermes`") && err.contains("glue"), "{err}");
    let err = new_agent(&caller, "hermes", "x", None, &family, &[], &[]).unwrap_err();
    assert!(err.contains("none is: an agent needs an attached mind"), "{err}");
    assert!(new_agent(&caller, "glue", "  ", None, &family, &[], &minds()).is_err());
    let held = new_agent(&caller, "glue", "do anything", Some("Scribe"), &family, &[], &minds()).unwrap_err();
    assert!(held.contains("works within a reach"), "{held}");
    let mut mine = Family::new();
    mine.upsert_agent(id("glue:c-2"), Some(id("glue:c-1")), None);
    let err = new_agent(&Caller::Agent(id("glue:c-2")), "glue", "grandchild", None, &mine, &[], &minds()).unwrap_err();
    assert!(err.contains("one level only"), "{err}");
    let said = started_answer(&id("glue:c-9"), &how);
    assert_eq!(said.get("parent"), Some(&Json::Null));
}

/// An agent that a recipe started cannot start agents either.
#[test]
fn an_agent_a_recipe_started_starts_none() {
    let mut family = Family::new();
    family.upsert_agent(id("pi:c-r"), None, Some("Build".into()));
    let err = may_start_child(&id("pi:c-r"), &family, &[]).unwrap_err();
    assert!(err.contains("a recipe started cannot start agents"), "{err}");
}

/// The rules of handing work on: a role that is there, a task, a context that fits, and a ceiling
/// that is not above one's own.
#[test]
fn work_is_handed_on_within_the_rules() {
    let family = Family::new();
    let chair = role("chair", "Chair", "safe", 0);
    let coder = role("coder", "Coder", "sensitive", 2);
    let me = Caller::Agent(id("pi:c-1"));
    let mine = OwnReach { name: "Scribe".into(), ceiling: "safe".into(), rank: 0 };
    let there = [attached("pi", true)];
    let ask = |caller: &Caller, named: &str, role: Option<&Role>, task: &str, context: &str, mine: Option<&OwnReach>| {
        hand_off(caller, named, role, "chair (Chair)", task, context, mine, &family, &[], &there)
    };
    let on_pi = |parent: Option<AgentId>| Ok(HandOff { parent, mind: "pi".into() });
    assert_eq!(ask(&me, "chair", Some(&chair), "weigh them", "", Some(&mine)), on_pi(Some(id("pi:c-1"))));
    assert_eq!(ask(&Caller::NoAgent, "coder", Some(&coder), "fix it", "", None), on_pi(None));
    let err = ask(&me, "janitor", None, "x", "", None).unwrap_err();
    assert!(err.contains("no role `janitor`") && err.contains("chair (Chair)"), "{err}");
    assert!(ask(&me, "", None, "x", "", None).unwrap_err().contains("`role` is empty"));
    assert!(ask(&me, "chair", Some(&chair), "  ", "", None).unwrap_err().contains("`task` is empty"));
    let err = ask(&me, "chair", Some(&chair), "x", &"a".repeat(40 * 1024), None).unwrap_err();
    assert!(err.contains("at most 32 KiB") && err.contains("`context` is 40 KiB"), "{err}");
    let err = ask(&me, "coder", Some(&coder), "fix it", "", Some(&mine)).unwrap_err();
    assert!(err.contains("is the Scribe, at most `safe`, and cannot hand work to the Coder"), "{err}");
}

/// A role runs on the first mind of its list that is attached and can give it a conversation of its
/// own; one that holds a single conversation is never used.
#[test]
fn a_role_falls_back_down_its_list() {
    let chair = role("chair", "Chair", "safe", 0);
    let pick = |minds: &[Attached]| pick_mind(&chair, minds);
    assert_eq!(pick(&[attached("hermes", false), attached("openclaw", true), attached("pi", true)]).unwrap(), "pi");
    assert_eq!(pick(&[attached("deepseek", false), attached("openclaw", true)]).unwrap(), "openclaw");
    assert_eq!(
        pick(&[attached("hermes", false), attached("pi", false), attached("other", true)]).unwrap_err(),
        "No mind the Chair runs on is attached: it runs on deepseek, pi, openclaw, hermes; \
         pi holds one conversation at a time \u{2014} the person's own; \
         hermes holds one conversation at a time \u{2014} the person's own."
    );
    assert_eq!(
        pick(&[]).unwrap_err(),
        "No mind the Chair runs on is attached: it runs on deepseek, pi, openclaw, hermes."
    );
}

/// Down its list to the first mind attached that can give it a conversation of its own; a
/// one-conversation mind is never used, and none at all is said plainly with nothing started.
#[test]
fn a_role_falls_back_down_its_list_and_is_refused_plainly_when_none_of_its_minds_is_attached() {
    let family = Family::new();
    let chair = role("chair", "Chair", "safe", 0);
    let listing = "chair (Chair)";
    let mut there = vec![attached("hermes", false)];
    let hand = |named: &str, role: Option<&Role>, task: &str, context: &str, there: &[Attached]| {
        hand_off(&Caller::NoAgent, named, role, listing, task, context, None, &family, &[], there)
    };
    let err = hand("chair", Some(&chair), "weigh it", "", &there).unwrap_err();
    assert!(err.starts_with("No mind the Chair runs on is attached: it runs on deepseek, pi, openclaw"), "{err}");
    assert!(err.contains("hermes holds one conversation at a time — the person's own"), "{err}");

    there.push(attached("pi", true));
    let handed = hand("chair", Some(&chair), "weigh it", "", &there).unwrap();
    assert_eq!(handed.mind, "pi", "past deepseek, which is not attached, to pi");

    let err = hand("janitor", None, "x", "", &there).unwrap_err();
    assert!(err.contains("no role `janitor`") && err.contains("chair (Chair)"), "{err}");
    assert!(hand("", None, "x", "", &there).unwrap_err().contains("`role` is empty"));
    assert!(hand("chair", Some(&chair), "  ", "", &there).unwrap_err().contains("`task` is empty"));
    let err = hand("chair", Some(&chair), "x", &"a".repeat(40 * 1024), &there).unwrap_err();
    assert!(err.contains("at most 32 KiB"), "{err}");
}

/// new_agent's rules, word for word — depth one, three children — and the reach capping further: an
/// agent held to a reach cannot hand work above its own ceiling, nor start a plain agent that would
/// have no reach at all.
#[test]
fn hand_off_meets_new_agents_rules_and_a_reach_caps_what_it_hands_on() {
    let there = [attached("pi", true)];
    let minds = [HostMind { id: "pi".into(), name: "pi".into(), builtin: false }];
    let mut family = Family::new();
    let started = new_agent(&Caller::NoAgent, "pi", "plan the release", None, &family, &[], &minds).unwrap();
    assert_eq!((started.mind.as_str(), started.parent), ("pi", None));
    let parent = id("pi:c-parent");
    family.upsert_agent(parent.clone(), None, None);
    let as_parent = Caller::Agent(parent.clone());
    let mut live = vec![parent.clone()];

    for (n, name) in ["researcher", "writer", "scribe"].iter().enumerate() {
        let wanted = role(name, name, "safe", 0);
        let handed =
            hand_off(&as_parent, name, Some(&wanted), "", &format!("{name}'s part"), "", None, &family, &live, &there).unwrap();
        assert_eq!(handed, HandOff { parent: Some(parent.clone()), mind: "pi".into() });
        let kid = id(&format!("pi:c-kid{n}"));
        family.upsert_agent(kid.clone(), handed.parent, None);
        assert_eq!(family.parent_of(&kid), Some(&parent), "its row says who handed it the work");
        live.push(kid);
    }
    let planner = role("planner", "Planner", "safe", 0);
    let err = hand_off(&as_parent, "planner", Some(&planner), "", "a fourth", "", None, &family, &live, &there).unwrap_err();
    assert!(err.contains("already has 3 agents running"), "{err}");
    let chair = role("chair", "Chair", "safe", 0);
    let as_kid = Caller::Agent(id("pi:c-kid0"));
    let err = hand_off(&as_kid, "chair", Some(&chair), "", "weigh them", "", None, &family, &live, &there).unwrap_err();
    assert!(err.contains("one level only"), "{err}");

    let kids: Vec<Child> = (0..3).map(|n| Child { id: id(&format!("pi:c-kid{n}")), working: false }).collect();
    assert_eq!(children_to_stop(&kids, &live).len(), 3);

    // A Writer (safe) the person started: it may hand work to the Red team (safe), not to the
    // Coder (sensitive), and it may not start a plain agent.
    let as_writer = Caller::Agent(id("pi:c-writer"));
    family.upsert_agent(id("pi:c-writer"), None, None);
    let mine = OwnReach { name: "Writer".into(), ceiling: "safe".into(), rank: 0 };
    let coder = role("coder", "Coder", "sensitive", 2);
    let err = hand_off(&as_writer, "coder", Some(&coder), "", "fix it", "", Some(&mine), &family, &live, &there).unwrap_err();
    assert!(err.contains("is the Writer, at most `safe`, and cannot hand work to the Coder"), "{err}");
    let err = new_agent(&as_writer, "pi", "do anything", Some("Writer"), &family, &live, &minds).unwrap_err();
    assert!(err.contains("works within a reach"), "{err}");
    let red = role("red-team", "Red team", "safe", 0);
    let handed = hand_off(&as_writer, "red-team", Some(&red), "", "attack it", "", Some(&mine), &family, &live, &there);
    assert_eq!(handed.unwrap().mind, "pi");
}

/// A role's turns are its budget: a third is refused where it has two.
#[test]
fn a_roles_turns_are_its_budget() {
    let agent = id("pi:c-7");
    let had = |had: u64| TurnBudget { role: "Chair".into(), turns: 2, had };
    assert!(matches!(send(&agent, " and C says never ", "companion", false, false, Some(&had(1))), Say::Send(t) if t == "and C says never"));
    let refused = |s: Say| match s {
        Say::Refuse(why) => why,
        _ => panic!("it was not refused"),
    };
    let err = refused(send(&agent, "one more", "companion", false, false, Some(&had(2))));
    assert!(err.contains("is the Chair, whose budget is 2 turns, and it has had them all"), "{err}");
    assert!(matches!(send(&agent, "  ", "companion", true, true, None), Say::Nothing));
    assert!(refused(send(&id("companion:main"), "x", "companion", false, false, None)).contains("in the Lens"));
    assert!(refused(send(&agent, "x", "companion", true, false, None)).contains("one turn at a time"));
    assert!(refused(send(&agent, "x", "companion", false, true, None)).contains("Its harness is gone"));
}

#[test]
fn how_long_a_hand_off_waits() {
    assert_eq!(wait_arg(Given::Nothing), Ok(None));
    assert_eq!(wait_arg(whole(0)), Ok(None), "zero is not waiting");
    assert_eq!(wait_arg(whole(90)), Ok(Some(Wait { secs: 90, nanos: 0 })));
    assert_eq!(wait_arg(whole(600)), Ok(Some(Wait { secs: 600, nanos: 0 })));
    assert!(wait_arg(whole(601)).is_err());
    assert!(wait_arg(whole(-1)).is_err());
    assert!(wait_arg(Given::Number(Amount { floor: 600, fraction: true, nanos: 1 })).is_err());
    assert_eq!(
        wait_arg(Given::Number(Amount { floor: 0, fraction: true, nanos: 500_000_000 })),
        Ok(Some(Wait { secs: 0, nanos: 500_000_000 }))
    );
    assert!(wait_arg(Given::Other).unwrap_err().contains("a number of seconds"));
    assert_eq!(turns_arg(Given::Nothing), Ok(3));
    assert_eq!(turns_arg(whole(20)), Ok(20));
    assert!(turns_arg(whole(21)).unwrap_err().contains("between 1 and 20"));
    assert!(turns_arg(whole(0)).is_err());
}

/// What a role said is handed back once its first turn is over; a wait that runs out says so.
#[test]
fn a_hand_off_hands_the_answer_back() {
    let handed = Handed { agent: id("pi:c-8"), role: role("chair", "Chair", "safe", 0), mind: "pi".into() };
    let turn = |prompt: &str, ended: bool| Turn {
        prompt: prompt.into(),
        items: vec![Item::Text("Verdict \u{2014} ship on Friday.".into()), Item::Other],
        ended,
        ok: if ended { Some(true) } else { None },
    };
    assert_eq!(first_answer(&[turn("", true), turn("weigh", false)]), None);
    assert_eq!(wait_for_answer(&[turn("weigh", false)], false), None, "it looks again");
    assert_eq!(
        wait_for_answer(&[turn("weigh", false)], true),
        Some(Answered { done: false, ok: false, text: String::new() })
    );
    assert_eq!(wait_for_answer(&[turn("weigh", true)], true), first_answer(&[turn("weigh", true)]));
    let answered = first_answer(&[turn("", true), turn("weigh", true)]).unwrap();
    assert_eq!(answered, Answered { done: true, ok: true, text: "Verdict \u{2014} ship on Friday.".into() });
    let answer = handed.answer(Some((10, answered)));
    assert_eq!(answer.get("done"), Some(&Json::Bool(true)));
    assert_eq!(text(&answer, "answer"), "Verdict \u{2014} ship on Friday.");
    assert!(text(&answer, "said").starts_with("The Chair (`pi:c-8`, on pi) answered:\n\nVerdict"), "{}", text(&answer, "said"));
    let late = handed.answer(Some((0, Answered { done: false, ok: false, text: String::new() })));
    let said = text(&late, "said");
    assert!(said.contains("it is still working after 0 s") && said.contains("`read_agent` with agent"), "{said}");
    let at_once = handed.answer(None);
    let said = text(&at_once, "said");
    assert!(said.starts_with("Handed to the Chair (`pi:c-8`, on pi)"), "{said}");
    assert!(said.contains("notes \u{b7} at most safe") && said.contains("2 turns and 15 minutes"), "{said}");
}

/// A turn that did not end well carries the notes; one that is too long is cut, and says so.
#[test]
fn a_turn_is_told_in_words() {
    let turn = |ok: Option<bool>, text: &str| Turn {
        prompt: "x".into(),
        items: vec![Item::Text(text.into()), Item::Note("it was stopped".into())],
        ended: true,
        ok,
    };
    assert_eq!(turn_text(&turn(Some(true), " done ")), "done");
    assert_eq!(turn_text(&turn(Some(false), "half")), "half\n[it was stopped]");
    let long = turn_text(&turn(Some(true), &"a".repeat(ANSWER_MOST_BYTES + 5)));
    assert!(long.ends_with("\n\u{2026} 5 more bytes; `read_agent` has the rest."), "{}", &long[long.len() - 60..]);
}

#[test]
fn a_stop_says_what_it_stopped() {
    let stopped = Stopped { stopped: true, commands: 2, approvals: 1, children: vec![id("pi:c-2")] };
    let answer = stopped_answer(&id("pi:c-1"), &stopped);
    assert_eq!(
        text(&answer, "said"),
        "Stopped `pi:c-1`, and killed 2 commands; the agents it started stopped with it (pi:c-2). Its pane stays readable on the Agents screen."
    );
    assert_eq!(render(answer.get("children_stopped").unwrap()), "[\"pi:c-2\"]");
    let idle = Stopped { stopped: false, commands: 0, approvals: 0, children: vec![] };
    assert_eq!(
        text(&stopped_answer(&id("pi:c-1"), &idle), "said"),
        "`pi:c-1` had nothing running; it is stopped all the same. Its pane stays readable on the Agents screen."
    );
    assert_eq!(watch_budget(1, 30, true), Budget::Wait(5));
    assert_eq!(watch_budget(1, 57, true), Budget::Wait(3));
    assert_eq!(watch_budget(1, 60, true), Budget::Stop);
    assert_eq!(watch_budget(1, 60, false), Budget::Over);
    assert_eq!(budget_note(15, "Chair"), "Its budget of 15 minutes as the Chair ran out, so it was stopped.");
}

/// A session is read by the agent itself, by the one that started it and by the person.
#[test]
fn a_session_is_read_by_those_who_may() {
    let family = Family::new();
    let me = id("pi:c-read01");
    let session = Session {
        mind: "pi".into(),
        state: "working".into(),
        approvals_pending: true,
        waiting_for_you: false,
        turns: 1,
        transcript: "count the photos".into(),
    };
    let read = read_agent(&Caller::Agent(me.clone()), &me, Given::Nothing, &family, Some(&session)).unwrap();
    assert_eq!(text(&read, "text"), "count the photos");
    assert!(send_to_agent(&Caller::NoAgent, &me, "more", &family).is_ok());
    assert!(send_to_agent(&Caller::NoAgent, &me, " ", &family).unwrap_err().contains("`text` is empty"));
    assert!(send_to_agent(&Caller::Agent(id("pi:c-x")), &me, "more", &family).is_err());
}

/// `read_agent` answers with the session as text — a verified card with its exit code, what
/// the person was asked — and refuses a stranger's session to an agent.
#[test]
fn read_agent_gives_the_session_as_text_and_only_to_those_who_may_read_it() {
    let me = id("pi:c-read01");
    let mut family = Family::new();
    family.upsert_agent(me.clone(), None, None);
    let session = Session {
        mind: "pi".into(),
        state: "complete".into(),
        approvals_pending: true,
        waiting_for_you: false,
        turns: 1,
        transcript: "count the photos\nCounting them now.\n[verified call] ls ~/Pictures | wc -l: exit 0\n4127\n\
                     [asked the person] files.move"
            .into(),
    };
    let read = read_agent(&Caller::Agent(me.clone()), &me, Given::Nothing, &family, Some(&session)).unwrap();
    for said in ["count the photos", "Counting them now.", "[verified call]", "exit 0", "4127", "[asked the person] files.move"] {
        assert!(text(&read, "text").contains(said), "{said:?} missing:\n{}", text(&read, "text"));
    }
    assert_eq!(read.get("needs_you"), Some(&Json::Bool(true)));
    let err = read_agent(&Caller::Agent(id("deepseek:c-other2")), &me, Given::Nothing, &family, Some(&session)).unwrap_err();
    assert!(err.contains("not an agent you started"), "{err}");
    assert!(read_agent(&Caller::NoAgent, &me, whole(21), &family, Some(&session)).unwrap_err().contains("between 1 and 20"));
    assert!(read_agent(&Caller::NoAgent, &id("pi:c-nobody"), Given::Nothing, &family, None).unwrap_err().contains("no agent"));
}

#[test]
fn an_agent_knows_who_started_it_and_for_what() {
    let mut family = Family::new();
    family.upsert_agent(id("pi#1"), None, None);
    family.upsert_agent(id("pi#2"), Some(id("pi#1")), Some("council".into()));
    assert_eq!(family.parent_of(&id("pi#2")), Some(&id("pi#1")));
    assert_eq!(family.recipe_of(&id("pi#2")), Some("council"));
    assert_eq!(family.parent_of(&id("pi#1")), None);
    assert_eq!(family.parent_of(&id("nobody#1")), None);
    assert_eq!(family.recipe_of(&id("nobody#1")), None);
}

#[test]
fn a_mind_is_named_by_its_id_or_its_name() {
    let minds = vec![
        HostMind { id: "companion".into(), name: "Companion".into(), builtin: true },
        HostMind { id: "pi".into(), name: "Pi Agent".into(), builtin: false },
    ];
    assert_eq!(mind_id(&minds, "pi"), Ok("pi".to_string()));
    assert_eq!(mind_id(&minds, "pi agent"), Ok("pi".to_string()));
    assert!(mind_id(&minds, "zzz").unwrap_err().contains("zzz"));
}

#[test]
fn what_was_done_to_an_agent_is_said() {
    assert!(text(&sent_answer(&id("pi#2")), "said").starts_with("Sent to `pi#2`;"));
    let stopped = Stopped { stopped: true, commands: 2, approvals: 0, children: vec![id("pi#3"), id("pi#4")] };
    assert_eq!(
        stopped_said(&id("pi#2"), &stopped),
        "Stopped `pi#2`, and killed 2 commands; the agents it started stopped with it (pi#3, pi#4). Its pane stays readable on the Agents screen."
    );
    let idle = Stopped { stopped: false, commands: 0, approvals: 0, children: vec![] };
    assert_eq!(
        stopped_said(&id("pi#2"), &idle),
        "`pi#2` had nothing running; it is stopped all the same. Its pane stays readable on the Agents screen."
    );
}

#[test]
fn a_pane_is_shown_only_for_an_agent_there_is() {
    let mut family = Family::new();
    family.upsert_agent(id("pi:c-1"), None, None);
    assert_eq!(show_agent(&j(r#"{"agent": " pi:c-1 "}"#), &family), Ok(id("pi:c-1")));
    assert_eq!(
        show_agent(&j(r#"{"agent": "pi:c-2"}"#), &family).unwrap_err(),
        "there is no agent `pi:c-2` on this desktop; `describe shell` lists them under `agents`."
    );
    for name in ["pi", ":c-1", "pi:"] {
        let args = Json::Object(vec![("agent".to_string(), Json::Str(name.to_string()))]);
        assert!(show_agent(&args, &family).unwrap_err().starts_with(&format!("`agent` is `{name}`;")));
    }
    assert_eq!(render(&showing_answer(&id("pi:c-1"), true)), r#"{"raised":true,"showing":"pi:c-1"}"#);
}

#[test]
fn only_a_role_is_held_to_a_reach() {
    let mut reaches = Reaches::new();
    reaches.hold(Entry { token_sha256: "d1".into(), agent: "pi:c-1".into(), reach: j(r#"{"ceiling": "safe"}"#) });
    assert_eq!(within_reach(&reaches, &id("pi:c-1"), Err("not yours".into())), Err("not yours".to_string()));
    assert_eq!(within_reach(&reaches, &id("pi:c-1"), Ok(())), Ok(()));
    assert_eq!(within_reach(&reaches, &id("pi:c-2"), Err("not yours".into())), Ok(()));
}

/// An agent is held by its token's digest; one without a token is not live, and one whose reach
/// could not be published is not started.
#[test]
fn an_agent_that_cannot_be_held_is_not_started() {
    let mut reaches = Reaches::new();
    assert_eq!(
        reaches.hold_to_role("pi:c-1", "Chair", None, j("{}")).unwrap_err(),
        "`pi:c-1` is not live, so there is no token to hold to the Chair's reach"
    );
    assert_eq!(reaches.of("pi:c-1"), None);
    assert_eq!(reaches.hold_to_role("pi:c-1", "Chair", Some("d1"), j(r#"{"ceiling":"safe"}"#)), Ok(()));
    assert_eq!(reaches.lookup("d1"), Some(j(r#"{"ceiling":"safe"}"#)));
    assert_eq!(published(Ok(()), "Chair"), Ok(()));
    assert_eq!(published(Err("disk full".into()), "Chair").unwrap_err(), "the Chair's reach could not be published: disk full");
}

#[test]
fn an_agent_stops_only_what_it_started() {
    let mut family = Family::new();
    family.upsert_agent(id("pi:c-1"), None, None);
    family.upsert_agent(id("pi:c-2"), Some(id("pi:c-1")), None);
    let me = Caller::Agent(id("pi:c-1"));
    assert_eq!(stop_agent(&me, &id("pi:c-2"), &family, "companion"), Ok(()));
    assert!(stop_agent(&me, &id("pi:c-1"), &family, "companion").unwrap_err().contains("not an agent you started"));
    assert_eq!(stop_agent(&Caller::NoAgent, &id("pi:c-1"), &family, "companion"), Ok(()));
    assert!(stop_agent(&Caller::NoAgent, &id("companion:main"), &family, "companion").unwrap_err().contains("Lens"));
}

#[test]
fn the_person_hands_work_over_from_the_screen() {
    let chair = role("chair", "Chair", "safe", 0);
    let there = [attached("pi", true)];
    assert_eq!(hand_off_from_screen("chair", Some(&chair), "chair (Chair)", "weigh it", &there), Ok("pi".to_string()));
    assert!(hand_off_from_screen("chair", Some(&chair), "", "weigh it", &[]).unwrap_err().starts_with("No mind the Chair"));
    assert_eq!(
        hand_off_from_screen(" ", None, "chair (Chair)", "weigh it", &there).unwrap_err(),
        "`role` is empty: a role from the catalog \u{2014} chair (Chair)."
    );
    assert!(hand_off_from_screen("cook", None, "chair (Chair)", "weigh it", &there).unwrap_err().contains("no role `cook`"));
    assert_eq!(
        hand_off_from_screen("chair", Some(&chair), "chair (Chair)", " ", &there).unwrap_err(),
        "`task` is empty: what the Chair is to do."
    );
}
