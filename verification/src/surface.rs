//! How an action is published: what it is called, what it is graded, and what it takes.
use vstd::prelude::*;

verus! {

/// What kind of value a parameter takes.
#[derive(Clone, Copy, PartialEq, Eq, Debug, Structural)]
pub enum ParamKind {
    Text,
    Flag,
    Number,
    Object,
}

/// A parameter of an action.
#[derive(Debug)]
pub struct Param {
    pub name: &'static str,
    pub kind: ParamKind,
    pub optional: bool,
    pub about: &'static str,
}

/// What a [`Param`] says.
pub struct Takes {
    pub name: Seq<char>,
    pub kind: ParamKind,
    pub optional: bool,
    pub about: Seq<char>,
}

impl View for Param {
    type V = Takes;

    open spec fn view(&self) -> Takes {
        Takes { name: self.name@, kind: self.kind, optional: self.optional, about: self.about@ }
    }
}

impl Takes {
    /// A parameter that has to be given, of which nothing is said.
    pub open spec fn new(name: Seq<char>, kind: ParamKind) -> Takes {
        Takes { name, kind, optional: false, about: ""@ }
    }

    pub open spec fn left_out(self) -> Takes {
        Takes { optional: true, ..self }
    }

    pub open spec fn described(self, about: Seq<char>) -> Takes {
        Takes { about, ..self }
    }
}

impl Param {
    pub fn text(name: &'static str) -> (r: Param)
        ensures
            r@ == Takes::new(name@, ParamKind::Text),
    {
        Param { name, kind: ParamKind::Text, optional: false, about: "" }
    }

    pub fn flag(name: &'static str) -> (r: Param)
        ensures
            r@ == Takes::new(name@, ParamKind::Flag),
    {
        Param { name, kind: ParamKind::Flag, optional: false, about: "" }
    }

    pub fn number(name: &'static str) -> (r: Param)
        ensures
            r@ == Takes::new(name@, ParamKind::Number),
    {
        Param { name, kind: ParamKind::Number, optional: false, about: "" }
    }

    pub fn object(name: &'static str) -> (r: Param)
        ensures
            r@ == Takes::new(name@, ParamKind::Object),
    {
        Param { name, kind: ParamKind::Object, optional: false, about: "" }
    }

    /// The parameter may be left out.
    pub fn optional(self) -> (r: Param)
        ensures
            r@ == self@.left_out(),
    {
        Param { name: self.name, kind: self.kind, optional: true, about: self.about }
    }

    pub fn describe(self, about: &'static str) -> (r: Param)
        ensures
            r@ == self@.described(about@),
    {
        Param { name: self.name, kind: self.kind, optional: self.optional, about }
    }
}

/// An action, as it is published.
#[derive(Debug)]
pub struct Action {
    pub name: &'static str,
    pub about: &'static str,
    /// `safe`, `standard`, `sensitive` or `dangerous`.
    pub grade: &'static str,
    /// Whether it answers later.
    pub deferred: bool,
    pub params: Vec<Param>,
}

/// What an [`Action`] says.
pub struct Listing {
    pub name: Seq<char>,
    pub about: Seq<char>,
    pub grade: Seq<char>,
    pub deferred: bool,
    pub params: Seq<Takes>,
}

/// What parameters say, one by one.
pub open spec fn taken(s: Seq<Param>) -> Seq<Takes> {
    Seq::new(s.len(), |i: int| s[i]@)
}

impl View for Action {
    type V = Listing;

    open spec fn view(&self) -> Listing {
        Listing {
            name: self.name@,
            about: self.about@,
            grade: self.grade@,
            deferred: self.deferred,
            params: taken(self.params@),
        }
    }
}

impl Listing {
    /// An action of the usual grade that takes nothing and answers at once.
    pub open spec fn new(name: Seq<char>, about: Seq<char>) -> Listing {
        Listing { name, about, grade: "standard"@, deferred: false, params: Seq::empty() }
    }

    pub open spec fn risk(self, grade: Seq<char>) -> Listing {
        Listing { grade, ..self }
    }

    pub open spec fn deferred(self) -> Listing {
        Listing { deferred: true, ..self }
    }

    pub open spec fn arg(self, p: Takes) -> Listing {
        Listing { params: self.params.push(p), ..self }
    }
}

impl Action {
    pub fn new(name: &'static str, about: &'static str) -> (r: Action)
        ensures
            r@ == Listing::new(name@, about@),
    {
        let r = Action { name, about, grade: "standard", deferred: false, params: Vec::new() };
        assert(r@.params =~= Seq::<Takes>::empty());
        r
    }

    pub fn risk(self, grade: &'static str) -> (r: Action)
        ensures
            r@ == self@.risk(grade@),
    {
        Action {
            name: self.name,
            about: self.about,
            grade,
            deferred: self.deferred,
            params: self.params,
        }
    }

    /// The action answers later.
    pub fn defers(self) -> (r: Action)
        ensures
            r@ == self@.deferred(),
    {
        Action {
            name: self.name,
            about: self.about,
            grade: self.grade,
            deferred: true,
            params: self.params,
        }
    }

    /// The action takes one more parameter.
    pub fn arg(self, p: Param) -> (r: Action)
        ensures
            r@ == self@.arg(p@),
    {
        let mut params = self.params;
        let ghost was = taken(params@);
        let ghost t = p@;
        params.push(p);
        assert(taken(params@) =~= was.push(t));
        Action {
            name: self.name,
            about: self.about,
            grade: self.grade,
            deferred: self.deferred,
            params,
        }
    }
}

/// What actions say, one by one.
pub open spec fn shown(s: Seq<Action>) -> Seq<Listing> {
    Seq::new(s.len(), |i: int| s[i]@)
}

/// Publish one more action.
pub fn add_action(out: &mut Vec<Action>, a: Action)
    ensures
        shown(final(out)@) == shown(old(out)@).push(a@),
{
    let ghost was = shown(out@);
    let ghost p = a@;
    out.push(a);
    assert(shown(out@) =~= was.push(p));
}

/// A parameter has to be given until it is said that it may be left out, and saying something of it
/// changes nothing else.
pub proof fn law_what_a_parameter_says(
    name: &'static str,
    about: &'static str,
    new: Param,
    left: Param,
    told: Param,
)
    requires
        call_ensures(Param::text, (name,), new),
        call_ensures(Param::optional, (new,), left),
        call_ensures(Param::describe, (left, about), told),
    ensures
        new.name@ == name@ && new.kind == ParamKind::Text && !new.optional,
        left.optional && left.name@ == name@ && left.kind == ParamKind::Text,
        told.optional && told.name@ == name@ && told.about@ == about@,
{
}

/// An action is graded as it is said, takes what it is given in that order, and answers at once
/// unless it is said to answer later.
pub proof fn law_what_an_action_says(
    name: &'static str,
    about: &'static str,
    grade: &'static str,
    one: Param,
    new: Action,
    graded: Action,
    taking: Action,
    later: Action,
)
    requires
        call_ensures(Action::new, (name, about), new),
        call_ensures(Action::risk, (new, grade), graded),
        call_ensures(Action::arg, (graded, one), taking),
        call_ensures(Action::defers, (taking,), later),
    ensures
        new@.name == name@ && new@.about == about@ && new@.params.len() == 0 && !new@.deferred,
        graded@.grade == grade@ && graded@.name == name@,
        taking@.params == seq![one@] && taking@.grade == grade@ && !taking@.deferred,
        later@.deferred && later@.params == taking@.params && later@.grade == grade@,
{
}

} // verus!
