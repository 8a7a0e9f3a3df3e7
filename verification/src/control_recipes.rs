//! A recipe, operable over the shell's surface: start one, answer the question one waits on, pause
//! it, resume it, cancel it.
//!
//! A request is checked against the recipes as last published, so that a caller is refused at once
//! for a recipe that does not exist or cannot take it.
use crate::agents;
use crate::agents::AgentId;
use crate::control;
use crate::control_agents;
use crate::control_agents::{may_start_child, Caller, Family};
use crate::json;
use crate::json::{argument_of, no_entries, parse, put_last, render, string, Json, Tree};
use crate::seqs;
use crate::text;
use crate::text::{is_blank, joined, lowered, same};
use crate::surface;
use crate::surface::{add_action, Action, Listing, Param, ParamKind, Takes};
use vstd::prelude::*;

verus! {

/// How many recipes a refusal names.
pub const NAMED_AT_MOST: usize = 12;

/// A recipe as it was last published, and what it takes now.
#[derive(Debug)]
pub struct RecipeView {
    pub id: String,
    pub name: String,
    pub status: String,
    /// Whether it is one to start from, rather than one that was started.
    pub template: bool,
    pub can_answer: bool,
    pub can_pause: bool,
    pub can_resume: bool,
    pub can_cancel: bool,
}

pub open spec fn with_id(want: Seq<char>) -> spec_fn(RecipeView) -> bool {
    |v: RecipeView| v.id@ == want
}

pub open spec fn with_name(want: Seq<char>) -> spec_fn(RecipeView) -> bool {
    |v: RecipeView| text::lower(v.name@) == text::lower(want)
}

/// Where a recipe is among the views: by its id, or failing that by its name.
pub open spec fn picked(views: Seq<RecipeView>, want: Seq<char>) -> Option<int> {
    let i = seqs::first(views, with_id(want));
    let k = seqs::first(views, with_name(want));
    if i < views.len() {
        Some(i)
    } else if k < views.len() {
        Some(k)
    } else {
        None
    }
}

/// A recipe by its id, or failing that by its name.
pub fn pick<'a>(views: &'a [RecipeView], want: &str) -> (r: Option<&'a RecipeView>)
    ensures
        match r {
            Some(v) => picked(views@, want@) is Some && *v == views@[picked(views@, want@)->0],
            None => picked(views@, want@) is None,
        },
{
    let ghost f = with_id(want@);
    let mut i: usize = 0;
    while i < views.len()
        invariant
            i <= views@.len(),
            f == with_id(want@),
            seqs::first(views@, f) == seqs::first_from(views@, f, i as int),
        decreases views@.len() - i,
    {
        if same(views[i].id.as_str(), want) {
            return Some(&views[i]);
        }
        i += 1;
    }
    let low = lowered(want);
    let ghost g = with_name(want@);
    let mut k: usize = 0;
    while k < views.len()
        invariant
            k <= views@.len(),
            low@ == text::lower(want@),
            g == with_name(want@),
            seqs::first(views@, with_id(want@)) == views@.len(),
            seqs::first(views@, g) == seqs::first_from(views@, g, k as int),
        decreases views@.len() - k,
    {
        if same(lowered(views[k].name.as_str()).as_str(), low.as_str()) {
            return Some(&views[k]);
        }
        k += 1;
    }
    None
}

/// The recipes a refusal names: those that were started, the first few.
pub open spec fn known(views: Seq<RecipeView>) -> Seq<Seq<char>> {
    let ids = views.filter(|v: RecipeView| !v.template).map_values(|v: RecipeView| v.id@);
    if ids.len() <= NAMED_AT_MOST {
        ids
    } else {
        ids.take(NAMED_AT_MOST as int)
    }
}

/// What is said of a recipe that is not there.
pub open spec fn no_recipe(views: Seq<RecipeView>, want: Seq<char>) -> Seq<char> {
    "no recipe `"@ + want + "`; `describe shell` lists them under `recipes`"@ + (if known(
        views,
    ).len() == 0 {
        ""@
    } else {
        " ("@ + text::join(known(views), ", "@) + ")"@
    })
}

fn known_ids(views: &[RecipeView]) -> (r: Vec<String>)
    ensures
        text::strs(r@) == known(views@),
{
    let ghost f = |v: RecipeView| !v.template;
    let ghost id = |v: RecipeView| v.id@;
    let mut out: Vec<String> = Vec::new();
    let mut i: usize = 0;
    proof {
        seqs::lemma_filter_none(views@, f);
        assert(text::strs(out@) =~= views@.take(0).filter(f).map_values(id));
    }
    while i < views.len()
        invariant
            i <= views@.len(),
            f == (|v: RecipeView| !v.template),
            id == (|v: RecipeView| v.id@),
            text::strs(out@) == views@.take(i as int).filter(f).map_values(id),
        decreases views@.len() - i,
    {
        let ghost was = text::strs(out@);
        let ghost kept = views@.take(i as int).filter(f);
        proof {
            seqs::lemma_filter_take(views@, f, i as int);
        }
        if !views[i].template {
            out.push(views[i].id.clone());
            proof {
                assert(text::strs(out@) =~= was.push(views@[i as int].id@));
                assert(kept.push(views@[i as int]).map_values(id) =~= kept.map_values(id).push(
                    views@[i as int].id@,
                ));
            }
        }
        i += 1;
    }
    assert(views@.take(i as int) =~= views@);
    if out.len() > NAMED_AT_MOST {
        let ghost all = text::strs(out@);
        out.truncate(NAMED_AT_MOST);
        assert(text::strs(out@) =~= all.take(NAMED_AT_MOST as int));
    }
    out
}

/// Why a recipe cannot be found, where it cannot.
pub open spec fn unresolved(want: Seq<char>, loaded: bool, views: Seq<RecipeView>) -> Option<
    Seq<char>,
> {
    if want.len() == 0 {
        Some("`recipe` is empty"@)
    } else if !loaded {
        Some("the companion has not published its recipes yet"@)
    } else if picked(views, want) is None {
        Some(no_recipe(views, want))
    } else {
        None
    }
}

/// A recipe among those last published. `loaded` is whether any were.
pub fn resolve<'a>(want: &str, loaded: bool, views: &'a [RecipeView]) -> (r: Result<
    &'a RecipeView,
    String,
>)
    ensures
        match unresolved(want@, loaded, views@) {
            Some(why) => r matches Err(said) && said@ == why,
            None => r matches Ok(v) && *v == views@[picked(views@, want@)->0],
        },
{
    if want.is_empty() {
        return Err("`recipe` is empty".to_owned());
    }
    if !loaded {
        return Err("the companion has not published its recipes yet".to_owned());
    }
    match pick(views, want) {
        Some(v) => Ok(v),
        None => {
            let ids = known_ids(views);
            assert(text::strs(ids@).len() == ids@.len());
            let mut out = "no recipe `".to_owned();
            out.append(want);
            out.append("`; `describe shell` lists them under `recipes`");
            let list = if ids.len() == 0 {
                "".to_owned()
            } else {
                let mut t = " (".to_owned();
                t.append(joined(ids.as_slice(), ", ").as_str());
                t.append(")");
                t
            };
            out.append(list.as_str());
            Err(out)
        },
    }
}

/// What is asked of a recipe.
#[derive(Clone, Copy, PartialEq, Eq, Debug, Structural)]
pub enum Op {
    Answer,
    Pause,
    Resume,
    Cancel,
}

/// Whether a recipe takes this now.
pub open spec fn takes(v: RecipeView, op: Op) -> bool {
    match op {
        Op::Answer => v.can_answer,
        Op::Pause => v.can_pause,
        Op::Resume => v.can_resume,
        Op::Cancel => v.can_cancel,
    }
}

pub open spec fn refusal(op: Op) -> Seq<char> {
    match op {
        Op::Answer => "is not waiting for an answer"@,
        Op::Pause => "is not running or waiting"@,
        Op::Resume => "is not paused"@,
        Op::Cancel => "has nothing to cancel"@,
    }
}

fn refusal_of(op: Op) -> (r: &'static str)
    ensures
        r@ == refusal(op),
{
    match op {
        Op::Answer => "is not waiting for an answer",
        Op::Pause => "is not running or waiting",
        Op::Resume => "is not paused",
        Op::Cancel => "has nothing to cancel",
    }
}

/// Check a request against the recipes as last published. Answers with the recipe it is for.
pub fn request<'a>(args: &Json, op: Op, loaded: bool, views: &'a [RecipeView]) -> (r: Result<
    &'a RecipeView,
    String,
>)
    ensures
        ({
            let want = json::argument(args@, "recipe"@);
            match unresolved(want, loaded, views@) {
                Some(why) => r matches Err(said) && said@ == why,
                None => {
                    let v = views@[picked(views@, want)->0];
                    if takes(v, op) {
                        r matches Ok(found) && *found == v
                    } else {
                        r matches Err(said) && said@ == "`"@ + v.name@ + "` "@ + refusal(op)
                            + " \u{2014} it is "@ + v.status@
                    }
                },
            }
        }),
{
    let want = argument_of(args, "recipe");
    let view = match resolve(want.as_str(), loaded, views) {
        Ok(v) => v,
        Err(why) => {
            return Err(why);
        },
    };
    let can = match op {
        Op::Answer => view.can_answer,
        Op::Pause => view.can_pause,
        Op::Resume => view.can_resume,
        Op::Cancel => view.can_cancel,
    };
    if can {
        return Ok(view);
    }
    let mut out = "`".to_owned();
    out.append(view.name.as_str());
    out.append("` ");
    out.append(refusal_of(op));
    out.append(" \u{2014} it is ");
    out.append(view.status.as_str());
    Err(out)
}

/// What is answered once a request was handed over. `verb` is what the companion calls it.
pub fn requested(view: &RecipeView, verb: &str) -> (r: Json)
    ensures
        r@ == Tree::Object(
            seq![
                ("recipe"@, Tree::Str(view.id@)),
                ("name"@, Tree::Str(view.name@)),
                ("requested"@, Tree::Str(verb@)),
                (
                    "read_back"@,
                    Tree::Str(
                        "describe shell \u{2192} recipes: its status, and `can` for what it takes now"@,
                    ),
                ),
            ],
        ),
{
    let mut o: Vec<(String, Json)> = Vec::new();
    put_last(&mut o, "recipe", string(view.id.as_str()));
    put_last(&mut o, "name", string(view.name.as_str()));
    put_last(&mut o, "requested", string(verb));
    put_last(
        &mut o,
        "read_back",
        string("describe shell \u{2192} recipes: its status, and `can` for what it takes now"),
    );
    assert(json::entries(o@) =~= seq![
        ("recipe"@, Tree::Str(view.id@)),
        ("name"@, Tree::Str(view.name@)),
        ("requested"@, Tree::Str(verb@)),
        (
            "read_back"@,
            Tree::Str(
                "describe shell \u{2192} recipes: its status, and `can` for what it takes now"@,
            ),
        ),
    ]);
    Json::Object(o)
}

/// What is said of inputs that are no object.
pub open spec fn not_inputs(was: Seq<char>) -> Seq<char> {
    "`inputs` is a JSON object, like {\"question\": \"\u{2026}\"}; it was "@ + was
}

/// A recipe's inputs: nothing, an object, or the text of one.
pub open spec fn inputs_in(args: Tree) -> Result<Tree, Seq<char>> {
    match json::field(args, "inputs"@) {
        None => Ok(json::nothing()),
        Some(Tree::Null) => Ok(json::nothing()),
        Some(Tree::Object(e)) => Ok(Tree::Object(e)),
        Some(Tree::Str(s)) => if text::blank(s) {
            Ok(json::nothing())
        } else {
            inputs_read(s, json::read(s))
        },
        Some(other) => Err(not_inputs(json::compact(json::tidy(other)))),
    }
}

/// A recipe's inputs out of a text, given the value it spells.
pub open spec fn inputs_read(s: Seq<char>, read: Option<Tree>) -> Result<Tree, Seq<char>> {
    match read {
        Some(Tree::Object(e)) => Ok(Tree::Object(e)),
        _ => Err(not_inputs("`"@ + s + "`"@)),
    }
}

/// A recipe's inputs out of a text, given the value it spells.
pub fn inputs_of_text(s: &str, read: Option<Json>) -> (r: Result<Json, String>)
    ensures
        json::outcome(r) == inputs_read(
            s@,
            match read {
                Some(v) => Some(v@),
                None => None,
            },
        ),
{
    match read {
        Some(Json::Object(e)) => Ok(Json::Object(e)),
        _ => {
            let mut was = "`".to_owned();
            was.append(s);
            was.append("`");
            let mut out = "`inputs` is a JSON object, like {\"question\": \"\u{2026}\"}; it was ".to_owned();
            out.append(was.as_str());
            Err(out)
        },
    }
}

/// A recipe's inputs: absent, an object, or an object written as JSON text.
pub fn inputs_arg(args: &Json) -> (r: Result<Json, String>)
    ensures
        json::outcome(r) == inputs_in(args@),
{
    let value = match args.get("inputs") {
        Some(v) => v,
        None => {
            return Ok(no_entries());
        },
    };
    match value {
        Json::Null => Ok(no_entries()),
        Json::Object(_) => Ok(value.copy()),
        Json::Str(s) => {
            if is_blank(s.as_str()) {
                return Ok(no_entries());
            }
            inputs_of_text(s.as_str(), parse(s.as_str()))
        },
        _ => {
            let mut out = "`inputs` is a JSON object, like {\"question\": \"\u{2026}\"}; it was ".to_owned();
            out.append(render(value).as_str());
            Err(out)
        },
    }
}

/// What a run is given for its agents: by whom, and for which agent.
#[derive(Debug)]
pub struct Leave {
    pub by: String,
    pub agent: Option<String>,
}

/// The leave a run gets for its agents: the person's, or that of an agent that may start agents at
/// all.
pub fn leave_for(caller: &Caller, family: &Family, live: &[AgentId]) -> (r: Result<Leave, String>)
    ensures
        match control_agents::who(*caller) {
            None => r matches Ok(l) && l.by@
                == "shell.run_recipe (sensitive), by a caller that runs as no agent"@
                && l.agent is None,
            Some(me) => match control_agents::no_child(family@, me, agents::ids(live@)) {
                Some(why) => r matches Err(said) && said@ == why,
                None => r matches Ok(l) && l.by@ == "agent `"@ + me
                    + "`, through shell.run_recipe (sensitive)"@ && text::maybe(l.agent)
                    == Some(me),
            },
        },
{
    match caller {
        Caller::NoAgent => Ok(
            Leave {
                by: "shell.run_recipe (sensitive), by a caller that runs as no agent".to_owned(),
                agent: None,
            },
        ),
        Caller::Agent(me) => match may_start_child(me, family, live) {
            Err(why) => Err(why),
            Ok(()) => {
                let mut by = "agent `".to_owned();
                by.append(me.0.as_str());
                by.append("`, through shell.run_recipe (sensitive)");
                Ok(Leave { by, agent: Some(me.0.clone()) })
            },
        },
    }
}

/// What is said of a recipe that was started.
pub open spec fn started_words(name: Seq<char>, run: Seq<char>, formation: bool) -> Seq<char> {
    if formation {
        "Started '"@ + name + "' as `"@ + run
            + "`. Its agents are at work, each in its own pane on the Agents screen; `describe shell` \u{2192} `recipes` shows its stages, and its result comes as the recipe's completion."@
    } else {
        "Started '"@ + name + "' as `"@ + run
            + "`; `describe shell` \u{2192} `recipes` shows how it goes."@
    }
}

/// What `run_recipe` answers.
pub fn started_answer(name: &str, run: &str, formation: bool) -> (r: Json)
    ensures
        r@ == Tree::Object(
            seq![
                ("recipe"@, Tree::Str(run@)),
                ("name"@, Tree::Str(name@)),
                ("formation"@, Tree::Bool(formation)),
                ("said"@, Tree::Str(started_words(name@, run@, formation))),
            ],
        ),
{
    let mut said = "Started '".to_owned();
    said.append(name);
    said.append("' as `");
    said.append(run);
    if formation {
        said.append(
            "`. Its agents are at work, each in its own pane on the Agents screen; `describe shell` \u{2192} `recipes` shows its stages, and its result comes as the recipe's completion.",
        );
    } else {
        said.append("`; `describe shell` \u{2192} `recipes` shows how it goes.");
    }
    let ghost words = said@;
    let mut o: Vec<(String, Json)> = Vec::new();
    put_last(&mut o, "recipe", string(run));
    put_last(&mut o, "name", string(name));
    put_last(&mut o, "formation", Json::Bool(formation));
    put_last(&mut o, "said", Json::Str(said));
    assert(json::entries(o@) =~= seq![
        ("recipe"@, Tree::Str(run@)),
        ("name"@, Tree::Str(name@)),
        ("formation"@, Tree::Bool(formation)),
        ("said"@, Tree::Str(words)),
    ]);
    Json::Object(o)
}

/// The answer to the question a recipe waits on.
pub fn answer_arg(args: &Json) -> (r: Result<String, String>)
    ensures
        match r {
            Ok(s) => s@ == json::argument(args@, "text"@) && s@.len() > 0,
            Err(why) => json::argument(args@, "text"@).len() == 0 && why@
                == control::is_empty_text("text"@),
        },
{
    control::required_text(args, "text")
}

// ── Published actions ───────────────────────────────────────────────

pub const ABOUT_RUN_RECIPE: &'static str =
    "Start a recipe with its inputs: a built-in one by its name or id, or one a mind made. A formation \u{2014} Council, Red team, Build, Writers' room; `describe shell` \u{2192} `recipes` \u{2192} `formations` lists each with its `inputs` \u{2014} hands work to roles from the agent catalog: each works in its own pane on the Agents screen, its row saying which recipe it works for, and the recipe's stages light on the Recipes screen as they answer; its result comes as the recipe's completion. Answers with the run's id; `describe shell` \u{2192} `recipes` shows how it goes, and `cancel_recipe` stops it and lets its agents go. An agent another agent or a recipe started cannot start a formation.";

pub const ABOUT_RUN_RECIPE_RECIPE: &'static str =
    "The recipe's id from `describe shell` \u{2192} `recipes`, or its name (Council, Build \u{2026})";

pub const ABOUT_RUN_RECIPE_INPUTS: &'static str =
    "Its inputs as a JSON object: {\"question\": \"\u{2026}\"} for the Council, and a seat to change, e.g. \"seat_2\": \"coder\". `describe shell` \u{2192} `recipes` \u{2192} `formations` lists what each takes";

pub const ABOUT_ANSWER_RECIPE: &'static str =
    "Answer the question a recipe is waiting on, as the person would from the Recipes screen. Its `question` in describe has the text and the choices offered; any answer is taken. The recipe goes on with it";

pub const ABOUT_RESUME_RECIPE: &'static str =
    "Let a paused recipe go on \u{2014} running, or waiting again on what it was waiting for";

/// The actions this module publishes.
pub open spec fn published() -> Seq<Listing> {
    Seq::<Listing>::empty().push(
        Listing::new("run_recipe"@, ABOUT_RUN_RECIPE@).risk("sensitive"@).deferred()
            .arg(Takes::new("recipe"@, ParamKind::Text).described(ABOUT_RUN_RECIPE_RECIPE@))
            .arg(Takes::new("inputs"@, ParamKind::Object).left_out().described(ABOUT_RUN_RECIPE_INPUTS@)),
    ).push(
        Listing::new("answer_recipe"@, ABOUT_ANSWER_RECIPE@).deferred()
            .arg(Takes::new("recipe"@, ParamKind::Text).described("The recipe's id from `describe shell` \u{2192} `recipes`, or its name"@))
            .arg(Takes::new("text"@, ParamKind::Text).described("The answer: one of the choices, or your own words"@)),
    ).push(
        Listing::new("pause_recipe"@, "Hold a running or waiting recipe where it is, until resume_recipe"@).deferred()
            .arg(Takes::new("recipe"@, ParamKind::Text).described("The recipe's id from `describe shell` \u{2192} `recipes`, or its name"@)),
    ).push(
        Listing::new("resume_recipe"@, ABOUT_RESUME_RECIPE@).deferred()
            .arg(Takes::new("recipe"@, ParamKind::Text).described("The recipe's id from `describe shell` \u{2192} `recipes`, or its name"@)),
    ).push(
        Listing::new("cancel_recipe"@, "Stop a running, waiting or paused recipe for good. It cannot be resumed"@).deferred()
            .arg(Takes::new("recipe"@, ParamKind::Text).described("The recipe's id from `describe shell` \u{2192} `recipes`, or its name"@)),
    )
}

/// The actions this module publishes.
pub fn actions() -> (r: Vec<Action>)
    ensures
        surface::shown(r@) == published(),
{
    let mut out: Vec<Action> = Vec::new();
    assert(surface::shown(out@) =~= Seq::<Listing>::empty());
    add_action(
        &mut out,
        Action::new("run_recipe", ABOUT_RUN_RECIPE).risk("sensitive").defers()
            .arg(Param::text("recipe").describe(ABOUT_RUN_RECIPE_RECIPE))
            .arg(Param::object("inputs").optional().describe(ABOUT_RUN_RECIPE_INPUTS)),
    );
    add_action(
        &mut out,
        Action::new("answer_recipe", ABOUT_ANSWER_RECIPE).defers()
            .arg(Param::text("recipe").describe("The recipe's id from `describe shell` \u{2192} `recipes`, or its name"))
            .arg(Param::text("text").describe("The answer: one of the choices, or your own words")),
    );
    add_action(
        &mut out,
        Action::new("pause_recipe", "Hold a running or waiting recipe where it is, until resume_recipe").defers()
            .arg(Param::text("recipe").describe("The recipe's id from `describe shell` \u{2192} `recipes`, or its name")),
    );
    add_action(
        &mut out,
        Action::new("resume_recipe", ABOUT_RESUME_RECIPE).defers()
            .arg(Param::text("recipe").describe("The recipe's id from `describe shell` \u{2192} `recipes`, or its name")),
    );
    add_action(
        &mut out,
        Action::new("cancel_recipe", "Stop a running, waiting or paused recipe for good. It cannot be resumed").defers()
            .arg(Param::text("recipe").describe("The recipe's id from `describe shell` \u{2192} `recipes`, or its name")),
    );
    out
}

// ── Laws ────────────────────────────────────────────────────────────

/// A recipe's id goes before any name: a name that is another recipe's id does not hide it.
pub proof fn law_an_id_wins(views: Seq<RecipeView>, i: int)
    requires
        0 <= i < views.len(),
        forall|j: int| 0 <= j < i ==> (#[trigger] views[j]).id@ != views[i].id@,
    ensures
        picked(views, views[i].id@) == Some(i),
{
    assert forall|j: int| 0 <= j < i implies !with_id(views[i].id@)(#[trigger] views[j]) by {
        assert(views[j].id@ != views[i].id@);
    }
    seqs::lemma_first_is(views, with_id(views[i].id@), i);
}

/// A recipe goes by its id before it goes by its name, and by its name in any letter case, the
/// first of that name.
pub proof fn law_a_recipe_goes_by_its_name_too(views: Seq<RecipeView>, want: Seq<char>, i: int)
    requires
        0 <= i < views.len(),
    ensures
        (forall|j: int| 0 <= j < views.len() ==> (#[trigger] views[j]).id@ != want) && text::lower(
            views[i].name@,
        ) == text::lower(want) && (forall|j: int|
            0 <= j < i ==> text::lower((#[trigger] views[j]).name@) != text::lower(want)) ==> picked(
            views,
            want,
        ) == Some(i),
        (forall|j: int|
            0 <= j < views.len() ==> (#[trigger] views[j]).id@ != want && text::lower(
                views[j].name@,
            ) != text::lower(want)) ==> picked(views, want) is None,
{
    let f = with_id(want);
    let g = with_name(want);
    if forall|j: int| 0 <= j < views.len() ==> (#[trigger] views[j]).id@ != want {
        seqs::lemma_first_none(views, f);
    }
    if g(views[i]) && forall|j: int| 0 <= j < i ==> text::lower((#[trigger] views[j]).name@)
        != text::lower(want) {
        seqs::lemma_first_is(views, g, i);
    }
    if forall|j: int| 0 <= j < views.len() ==> text::lower((#[trigger] views[j]).name@)
        != text::lower(want) {
        seqs::lemma_first_none(views, g);
    }
}

/// A recipe is refused where none is named, where none are known yet, and where none is called so.
pub proof fn law_when_no_recipe_is_meant(want: Seq<char>, loaded: bool, views: Seq<RecipeView>)
    ensures
        unresolved(want, loaded, views) is None <==> want.len() > 0 && loaded && picked(views, want)
            is Some,
        want.len() == 0 ==> unresolved(want, loaded, views) == Some("`recipe` is empty"@),
        want.len() > 0 && !loaded ==> unresolved(want, loaded, views) == Some(
            "the companion has not published its recipes yet"@,
        ),
{
}

/// Twelve recipes are named at most, the first, and no template is.
pub proof fn law_twelve_recipes_are_named(views: Seq<RecipeView>, one: RecipeView)
    ensures
        known(views).len() <= 12,
        known(views).len() < 12 && !one.template ==> known(views.push(one)) == known(views).push(
            one.id@,
        ),
        known(views).len() == 12 || one.template ==> known(views.push(one)) == known(views),
        known(Seq::empty()).len() == 0,
{
    reveal(Seq::filter);
    let f = |v: RecipeView| !v.template;
    let g = |v: RecipeView| v.id@;
    assert(views.push(one).drop_last() =~= views);
    let ids = views.filter(f).map_values(g);
    if !one.template {
        assert(views.push(one).filter(f).map_values(g) =~= ids.push(one.id@));
        if ids.len() >= 12 {
            assert(ids.push(one.id@).take(12) =~= ids.take(12));
            assert(ids.take(ids.len() as int) =~= ids);
        }
    } else {
        assert(views.push(one).filter(f) =~= views.filter(f));
    }
}

/// What can be done to a recipe is what it says can be.
pub proof fn law_what_a_recipe_takes(v: RecipeView)
    ensures
        takes(v, Op::Answer) == v.can_answer,
        takes(v, Op::Pause) == v.can_pause,
        takes(v, Op::Resume) == v.can_resume,
        takes(v, Op::Cancel) == v.can_cancel,
{
}

/// The inputs of a recipe are an object, given or spelled out, and the empty one where none are
/// given.
pub proof fn law_inputs_are_an_object(args: Tree)
    ensures
        match json::field(args, "inputs"@) {
            None => inputs_in(args) == Ok::<Tree, Seq<char>>(Tree::Object(Seq::empty())),
            Some(t) => match t {
                Tree::Null => inputs_in(args) == Ok::<Tree, Seq<char>>(
                    Tree::Object(Seq::empty()),
                ),
                Tree::Object(e) => inputs_in(args) == Ok::<Tree, Seq<char>>(t),
                Tree::Str(s) => if text::blank(s) {
                    inputs_in(args) == Ok::<Tree, Seq<char>>(Tree::Object(Seq::empty()))
                } else {
                    inputs_in(args) is Ok <==> json::read(s) matches Some(Tree::Object(_))
                },
                _ => inputs_in(args) is Err,
            },
        },
{
}

/// Starting a recipe is sensitive, and what a person could do to one that runs is standard.
pub proof fn law_how_the_recipes_actions_are_graded()
    ensures
        published().len() == 5,
        published()[0].name == "run_recipe"@ && published()[0].grade == "sensitive"@,
        published()[1].name == "answer_recipe"@ && published()[1].grade == "standard"@,
        published()[2].name == "pause_recipe"@ && published()[2].grade == "standard"@,
        published()[3].name == "resume_recipe"@ && published()[3].grade == "standard"@,
        published()[4].name == "cancel_recipe"@ && published()[4].grade == "standard"@,
{
}

/// A recipe is answered, held, let go on or stopped where it says that it can be, and otherwise it
/// says what it is.
pub proof fn law_what_is_asked_of_a_recipe<'a>(
    args: Json,
    op: Op,
    views: &'a [RecipeView],
    i: int,
    r: Result<&'a RecipeView, String>,
)
    requires
        call_ensures(request, (&args, op, true, views), r),
        0 <= i < views@.len(),
        json::argument(args@, "recipe"@) == views@[i].id@,
        views@[i].id@.len() > 0,
        forall|j: int| 0 <= j < i ==> (#[trigger] views@[j]).id@ != views@[i].id@,
    ensures
        takes(views@[i], op) ==> r is Ok && *(r->Ok_0) == views@[i],
        !takes(views@[i], op) ==> r is Err && r->Err_0@ == "`"@ + views@[i].name@ + "` "@ + refusal(
            op,
        ) + " \u{2014} it is "@ + views@[i].status@,
{
    law_an_id_wins(views@, i);
}

/// A run has the person's leave, or that of an agent that may start agents, and says whose.
pub proof fn law_whose_leave_a_run_has(
    caller: Caller,
    family: Family,
    live: &[AgentId],
    r: Result<Leave, String>,
)
    requires
        call_ensures(leave_for, (&caller, &family, live), r),
    ensures
        caller is NoAgent ==> r is Ok && r->Ok_0.agent is None,
        caller matches Caller::Agent(me) ==> (r is Ok <==> control_agents::no_child(
            family@,
            me@,
            agents::ids(live@),
        ) is None),
        caller is Agent && r is Ok ==> r->Ok_0.agent is Some && (r->Ok_0.agent)->0@
            == caller->Agent_0@,
{
}

/// What a recipe is given is an object: one that is spelled out is taken as it reads, and nothing
/// else is taken for one.
pub proof fn law_a_recipe_is_given_an_object(s: Seq<char>, read: Option<Tree>)
    ensures
        inputs_read(s, read) is Ok <==> read is Some && read->0 is Object,
        inputs_read(s, read) is Ok ==> inputs_read(s, read)->Ok_0 == read->0,
{
}

/// A recipe that is given nothing, or a blank, runs with nothing; one that is given an object runs
/// with that; and a text that spells one counts as it.
pub proof fn law_what_a_recipe_runs_with(args: Tree)
    ensures
        match json::field(args, "inputs"@) {
            None => inputs_in(args) == Ok::<Tree, Seq<char>>(json::nothing()),
            Some(t) => match t {
                Tree::Null => inputs_in(args) == Ok::<Tree, Seq<char>>(json::nothing()),
                Tree::Object(e) => inputs_in(args) == Ok::<Tree, Seq<char>>(t),
                Tree::Str(s) => {
                    &&& text::blank(s) ==> inputs_in(args) == Ok::<Tree, Seq<char>>(
                        json::nothing(),
                    )
                    &&& !text::blank(s) ==> (inputs_in(args) is Ok <==> json::parsed(s) is Ok
                        && json::parsed(s)->Ok_0 is Object)
                    &&& !text::blank(s) && inputs_in(args) is Ok ==> inputs_in(args)
                        == json::parsed(s)
                },
                _ => inputs_in(args) is Err,
            },
        },
{
}

/// An answer has to be one.
pub proof fn law_an_answer_has_to_be_one(args: Json, r: Result<String, String>)
    requires
        call_ensures(answer_arg, (&args,), r),
    ensures
        r is Ok <==> json::argument(args@, "text"@).len() > 0,
        r matches Ok(s) ==> s@ == json::argument(args@, "text"@),
{
}

} // verus!
