//! Recipes: finding one, starting one, and whose leave it takes.
use yantrik_ui::agents::AgentId;
use yantrik_ui::clock::SECOND;
use yantrik_ui::control_agents::{Caller, Family};
use yantrik_ui::control_recipes::{
    actions, answer_arg, inputs_arg, inputs_of_text, leave_for, pick, request, requested, resolve, started_answer, Op, RecipeView,
};
use yantrik_ui::json::{parse, Json};
use yantrik_ui::mind_mode::{Bypass, Decision, Mode, Modes};
use yantrik_ui::surface::{Action, ParamKind};

/// The JSON a text spells.
fn j(text: &str) -> Json {
    parse(text).expect("a JSON text")
}

fn named(id: &str, name: &str) -> RecipeView {
    RecipeView {
        id: id.into(),
        name: name.into(),
        status: "running".into(),
        template: false,
        can_answer: false,
        can_pause: true,
        can_resume: false,
        can_cancel: true,
    }
}

fn entries(v: &Json) -> usize {
    match v {
        Json::Object(o) => o.len(),
        _ => panic!("not an object"),
    }
}

fn published(name: &str) -> Action {
    actions().into_iter().find(|a| a.name == name).unwrap_or_else(|| panic!("{name} is published"))
}

#[test]
fn a_recipe_is_found_by_its_id_or_its_name() {
    let views = vec![named("rcp_1", "Tidy downloads"), named("rcp_2", "rcp_1")];
    assert_eq!(pick(&views, "rcp_1").map(|v| v.name.as_str()), Some("Tidy downloads"), "the id wins");
    assert_eq!(pick(&views, "tidy DOWNLOADS").map(|v| v.id.as_str()), Some("rcp_1"));
    assert!(pick(&views, "nothing").is_none());
}

#[test]
fn inputs_come_as_an_object_or_as_json_text() {
    assert!(inputs_arg(&j(r#"{}"#)).map(|o| entries(&o)).unwrap() == 0);
    let given = inputs_arg(&j(r#"{"inputs": {"question": "Ship Friday?"}}"#)).unwrap();
    assert_eq!(given.get("question").and_then(|v| v.as_str()).unwrap(), "Ship Friday?");
    let text = inputs_arg(&j(r#"{"inputs": "{\"goal\": \"a flag\"}"}"#)).unwrap();
    assert_eq!(text.get("goal").and_then(|v| v.as_str()).unwrap(), "a flag");
    assert!(inputs_arg(&j(r#"{"inputs": "  "}"#)).map(|o| entries(&o)).unwrap() == 0);
    assert!(inputs_arg(&j(r#"{"inputs": "a flag"}"#)).unwrap_err().contains("JSON object"));
    assert!(inputs_arg(&j(r#"{"inputs": [1]}"#)).is_err());
}

/// The four actions are on the surface, graded standard, and settle later — the worker does the
/// work — with the arguments the design names.
#[test]
fn the_recipe_actions_are_published_as_designed() {
    for name in ["answer_recipe", "pause_recipe", "resume_recipe", "cancel_recipe"] {
        let spec = published(name);
        assert!(spec.deferred, "{name} settles later");
        assert_eq!(spec.grade, "standard", "{name} is standard, the default");
        assert_eq!(spec.params[0].name, "recipe", "{name} takes `recipe`");
    }
}

/// `run_recipe` starts agents, so it is graded sensitive: asked about in ask mode, refused in plan
/// mode, run unasked only where the mode says sensitive runs unasked, and never above the ceiling.
#[test]
fn starting_a_formation_is_sensitive_and_refused_without_a_grant() {
    let now = 1_000_000 * SECOND;
    let spec = published("run_recipe");
    assert_eq!((spec.name, spec.grade, spec.deferred), ("run_recipe", "sensitive", true));
    let params: Vec<(&str, bool)> = spec.params.iter().map(|p| (p.name, !p.optional)).collect();
    assert_eq!(params, [("recipe", true), ("inputs", false)]);
    assert_eq!(spec.params[1].kind, ParamKind::Object);
    let at = |mode: Mode, ceiling: &str| {
        let mut modes = Modes::new(Mode::Ask);
        modes.person_set_mode(mode, Bypass::Hour, now);
        modes.decide(spec.grade, "shell", "run_recipe", ceiling, now)
    };
    assert_eq!(at(Mode::Ask, "sensitive"), Decision::Ask);
    assert!(matches!(at(Mode::Plan, "sensitive"), Decision::Refuse { .. }));
    assert_eq!(at(Mode::Auto, "sensitive"), Decision::Run { unasked: true });
    assert!(matches!(at(Mode::Bypass, "standard"), Decision::Refuse { .. }), "never above the ceiling");
}

/// The leave a run gets for its agents: the person's, or a top-level agent's — never one a child
/// or a recipe's agent could give.
#[test]
fn only_the_person_or_an_agent_that_may_start_agents_gives_a_run_its_leave() {
    let mut family = Family::new();
    let person = leave_for(&Caller::NoAgent, &family, &[]).unwrap();
    assert_eq!((person.by.as_str(), person.agent), ("shell.run_recipe (sensitive), by a caller that runs as no agent", None));
    let top = AgentId("pi:c-leave-top".into());
    family.upsert_agent(top.clone(), None, None);
    let leave = leave_for(&Caller::Agent(top.clone()), &family, &[]).unwrap();
    assert_eq!(leave.agent.as_deref(), Some("pi:c-leave-top"));
    let child = AgentId("pi:c-leave-kid".into());
    family.upsert_agent(child.clone(), Some(top), None);
    let refused = |caller: AgentId, family: &Family| match leave_for(&Caller::Agent(caller), family, &[]) {
        Err(why) => why,
        Ok(_) => panic!("it was given leave"),
    };
    assert!(refused(child, &family).contains("one level only"));
    let recipes = AgentId("pi:c-leave-recipe".into());
    family.upsert_agent(recipes.clone(), None, Some("Build".into()));
    assert!(refused(recipes, &family).contains("a recipe started cannot start agents"));
}

/// A recipe is asked for what it can do, and no more.
#[test]
fn a_recipe_does_what_it_can() {
    let views = vec![named("rcp_1", "Tidy downloads")];
    let ask = |op: Op| request(&j(r#"{"recipe": "rcp_1"}"#), op, true, &views).map(|v| v.id.clone());
    assert_eq!(ask(Op::Pause), Ok("rcp_1".to_string()));
    assert_eq!(ask(Op::Cancel), Ok("rcp_1".to_string()));
    assert!(ask(Op::Resume).is_err());
    assert!(ask(Op::Answer).is_err());
    assert!(request(&j("{}"), Op::Pause, true, &views).is_err());
    assert!(resolve("rcp_9", true, &views).is_err());
    assert!(resolve("rcp_1", false, &[]).is_err());
    assert_eq!(requested(&views[0], "pause").get("recipe").and_then(|v| v.as_str()), Some("rcp_1"));
    assert!(started_answer("Council", "run-1", true).get("said").is_some());
    assert!(answer_arg(&j("{}")).is_err());
    assert_eq!(answer_arg(&j(r#"{"text": " yes "}"#)), Ok("yes".to_string()));
}

#[test]
fn inputs_are_an_object_or_refused() {
    assert_eq!(inputs_of_text("{}", Some(j(r#"{"question": "why"}"#))), Ok(j(r#"{"question": "why"}"#)));
    assert!(inputs_of_text("[1]", Some(j("[1]"))).unwrap_err().contains("`[1]`"));
    assert!(inputs_of_text("why", None).unwrap_err().contains("`why`"));
}
