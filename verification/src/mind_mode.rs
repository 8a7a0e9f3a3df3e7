//! What the mind may do without being asked: four modes, and what makes each of them safe.
//!
//! `plan` reads and does not touch, `ask` asks about anything that could matter, `auto` stops
//! asking about the routine things, and `bypass` stops asking entirely, for a while. A mode is
//! always below the machine's own ceiling, and only a person can make it looser.
use crate::approvals::{self, args_rows, may_offer_session_rule};
use crate::clock;
use crate::clock::{elapsed, SECOND};
use crate::json;
use crate::json::{put_last, string, strings, whole_number, Json, Tree};
use crate::text;
use crate::seqs;
use crate::text::{decimal, joined, lines_of, lowered, same, trimmed};
use vstd::prelude::*;

verus! {

/// How many entries the in-memory audit list holds.
pub const AUDIT_MEMORY: usize = 50;

/// How many entries `describe shell` publishes.
pub const AUDIT_PUBLISHED: usize = 10;

/// How large, in bytes, the audit file may get before the oldest lines are dropped.
pub const AUDIT_FILE_MAX: u64 = 204_800;

/// How many lines survive a trim.
pub const AUDIT_FILE_KEEP: usize = 400;

/// Where a grade sits on the ladder, loosest last, or nothing for a word this OS does not define.
pub open spec fn rank(grade: Seq<char>) -> Option<int> {
    if grade == "safe"@ {
        Some(0)
    } else if grade == "standard"@ {
        Some(1)
    } else if grade == "sensitive"@ {
        Some(2)
    } else if grade == "dangerous"@ {
        Some(3)
    } else {
        None
    }
}

/// Where a grade sits on the ladder. `None` is not "safe": an ungradeable action is refused
/// everywhere it appears.
pub fn grade_rank(grade: &str) -> (r: Option<usize>)
    ensures
        (r matches Some(n) ==> rank(grade@) == Some(n as int)),
        r is None ==> rank(grade@) is None,
{
    if same(grade, "safe") {
        Some(0)
    } else if same(grade, "standard") {
        Some(1)
    } else if same(grade, "sensitive") {
        Some(2)
    } else if same(grade, "dangerous") {
        Some(3)
    } else {
        None
    }
}

#[derive(Clone, Copy, PartialEq, Eq, Debug, Structural)]
pub enum Mode {
    /// Read, and do not touch.
    Plan,
    /// Routine actions run, sensitive ones raise a card.
    Ask,
    /// Sensitive actions run without asking; `dangerous` still raises a card.
    Auto,
    /// Everything below the machine ceiling runs. Time-boxed, never persisted.
    Bypass,
}

pub open spec fn mode_word(m: Mode) -> Seq<char> {
    match m {
        Mode::Plan => "plan"@,
        Mode::Ask => "ask"@,
        Mode::Auto => "auto"@,
        Mode::Bypass => "bypass"@,
    }
}

pub open spec fn mode_named(text: Seq<char>) -> Option<Mode> {
    let t = text::lower(text::trim(text));
    if t == "plan"@ {
        Some(Mode::Plan)
    } else if t == "ask"@ {
        Some(Mode::Ask)
    } else if t == "auto"@ {
        Some(Mode::Auto)
    } else if t == "bypass"@ {
        Some(Mode::Bypass)
    } else {
        None
    }
}

/// How much the mind may do unasked. Higher is looser.
pub open spec fn looseness(m: Mode) -> int {
    match m {
        Mode::Plan => 0,
        Mode::Ask => 1,
        Mode::Auto => 2,
        Mode::Bypass => 3,
    }
}

pub open spec fn mode_label(m: Mode) -> Seq<char> {
    match m {
        Mode::Plan => "Plan"@,
        Mode::Ask => "Ask"@,
        Mode::Auto => "Auto"@,
        Mode::Bypass => "Bypass"@,
    }
}

pub open spec fn mode_meaning(m: Mode) -> Seq<char> {
    match m {
        Mode::Plan => "Look, don't touch. It can read anything and change nothing."@,
        Mode::Ask => "It asks you before anything that could matter."@,
        Mode::Auto => "It gets on with things. You are still asked about the destructive ones."@,
        Mode::Bypass => "It does not ask. Everything the machine allows, it does."@,
    }
}

impl Mode {
    pub fn as_str(self) -> (r: &'static str)
        ensures
            r@ == mode_word(self),
    {
        match self {
            Mode::Plan => "plan",
            Mode::Ask => "ask",
            Mode::Auto => "auto",
            Mode::Bypass => "bypass",
        }
    }

    pub fn parse(text: &str) -> (r: Option<Mode>)
        ensures
            r == mode_named(text@),
    {
        let t = lowered(trimmed(text).as_str());
        let t = t.as_str();
        if same(t, "plan") {
            Some(Mode::Plan)
        } else if same(t, "ask") {
            Some(Mode::Ask)
        } else if same(t, "auto") {
            Some(Mode::Auto)
        } else if same(t, "bypass") {
            Some(Mode::Bypass)
        } else {
            None
        }
    }

    /// The only ordering that decides whether a change is a raise or a lowering.
    pub fn permissiveness(self) -> (r: u8)
        ensures
            r == looseness(self),
    {
        match self {
            Mode::Plan => 0,
            Mode::Ask => 1,
            Mode::Auto => 2,
            Mode::Bypass => 3,
        }
    }

    /// The word on the chip in the status bar.
    pub fn label(self) -> (r: &'static str)
        ensures
            r@ == mode_label(self),
    {
        match self {
            Mode::Plan => "Plan",
            Mode::Ask => "Ask",
            Mode::Auto => "Auto",
            Mode::Bypass => "Bypass",
        }
    }

    /// One line of plain words, for the menu and for a refusal.
    pub fn meaning(self) -> (r: &'static str)
        ensures
            r@ == mode_meaning(self),
    {
        match self {
            Mode::Plan => "Look, don't touch. It can read anything and change nothing.",
            Mode::Ask => "It asks you before anything that could matter.",
            Mode::Auto => "It gets on with things. You are still asked about the destructive ones.",
            Mode::Bypass => "It does not ask. Everything the machine allows, it does.",
        }
    }
}

/// How long a bypass lasts. Chosen on the confirmation, never assumed.
#[derive(Clone, Copy, PartialEq, Eq, Debug, Structural)]
pub enum Bypass {
    Minutes15,
    Hour,
    /// No deadline, but still not persisted, so it ends at the next restart at the latest.
    UntilRestart,
}

pub open spec fn bypass_named(text: Seq<char>) -> Option<Bypass> {
    let t = text::lower(text::trim(text));
    if t == "15m"@ || t == "15min"@ || t == "15"@ {
        Some(Bypass::Minutes15)
    } else if t == "1h"@ || t == "hour"@ || t == "60m"@ {
        Some(Bypass::Hour)
    } else if t == "restart"@ || t == "until_restart"@ || t == "session"@ {
        Some(Bypass::UntilRestart)
    } else {
        None
    }
}

/// When a bypass that starts now ends, where it has an end.
pub open spec fn ends(b: Bypass, now: int) -> Option<int> {
    match b {
        Bypass::Minutes15 => Some(now + 15 * 60 * SECOND),
        Bypass::Hour => Some(now + 60 * 60 * SECOND),
        Bypass::UntilRestart => None,
    }
}

/// The longest a bypass with an end lasts.
pub const LONGEST_BYPASS: u64 = 3_600_000_000_000;

impl Bypass {
    pub fn parse(text: &str) -> (r: Option<Bypass>)
        ensures
            r == bypass_named(text@),
    {
        let t = lowered(trimmed(text).as_str());
        let t = t.as_str();
        if same(t, "15m") || same(t, "15min") || same(t, "15") {
            Some(Bypass::Minutes15)
        } else if same(t, "1h") || same(t, "hour") || same(t, "60m") {
            Some(Bypass::Hour)
        } else if same(t, "restart") || same(t, "until_restart") || same(t, "session") {
            Some(Bypass::UntilRestart)
        } else {
            None
        }
    }

    fn deadline(self, now: u64) -> (r: Option<u64>)
        requires
            now <= u64::MAX - LONGEST_BYPASS,
        ensures
            (r matches Some(at) ==> ends(self, now as int) == Some(at as int)),
            r is None ==> ends(self, now as int) is None,
    {
        match self {
            Bypass::Minutes15 => Some(now + 15 * 60 * SECOND),
            Bypass::Hour => Some(now + 60 * 60 * SECOND),
            Bypass::UntilRestart => None,
        }
    }
}

/// What [`Modes::decide`] answers.
#[derive(Clone, PartialEq, Eq, Debug)]
pub enum Decision {
    /// Run it. `unasked` is true when `ask` mode would have put a card up for this and the
    /// current mode did not: exactly what the audit log exists for.
    Run { unasked: bool },
    /// Put a card in front of the person and wait.
    Ask,
    /// Do not run it and do not ask. `why` is written to be relayed to a person as it is.
    Refuse { why: String },
}

/// What a [`Decision`] says.
pub enum Verdict {
    Run { unasked: bool },
    Ask,
    Refuse { why: Seq<char> },
}

impl View for Decision {
    type V = Verdict;

    open spec fn view(&self) -> Verdict {
        match self {
            Decision::Run { unasked } => Verdict::Run { unasked: *unasked },
            Decision::Ask => Verdict::Ask,
            Decision::Refuse { why } => Verdict::Refuse { why: why@ },
        }
    }
}

/// A standing yes for one `(app, action)` with any arguments, until the shell restarts.
#[derive(Clone, PartialEq, Eq, Debug)]
pub struct Rule {
    pub app: String,
    pub action: String,
}

/// What a [`Rule`] covers.
pub type Covers = (Seq<char>, Seq<char>);

/// The mode this shell is in.
#[derive(Clone, Debug)]
pub struct Modes {
    mode: Mode,
    /// What a lapsing bypass returns to.
    previous: Mode,
    /// `None` while in bypass means "until the shell restarts".
    bypass_until: Option<u64>,
    rules: Vec<Rule>,
}

/// What a [`Modes`] holds.
pub struct Setting {
    pub mode: Mode,
    pub previous: Mode,
    pub until: Option<int>,
    pub rules: Seq<Covers>,
}

spec fn covers(s: Seq<Rule>) -> Seq<Covers> {
    Seq::new(s.len(), |i: int| (s[i].app@, s[i].action@))
}

impl View for Modes {
    type V = Setting;

    closed spec fn view(&self) -> Setting {
        Setting {
            mode: self.mode,
            previous: self.previous,
            until: match self.bypass_until {
                Some(at) => Some(at as int),
                None => None,
            },
            rules: covers(self.rules@),
        }
    }
}

/// What holds of every setting: a bypass never falls back to a bypass, and outside one nothing is
/// counting down.
pub open spec fn sound(s: Setting) -> bool {
    &&& s.previous != Mode::Bypass
    &&& s.mode != Mode::Bypass ==> s.until is None && s.previous == s.mode
}

/// The mode in force at `now`: a bypass cannot still be in force because no timer happened to
/// fire.
pub open spec fn in_force(s: Setting, now: int) -> Mode {
    if s.mode == Mode::Bypass && (s.until matches Some(at) && now >= at) {
        s.previous
    } else {
        s.mode
    }
}

/// A fresh setting. A machine must not come up in bypass, so nothing can construct one that has.
pub open spec fn fresh(mode: Mode) -> Setting {
    let m = if mode == Mode::Bypass {
        Mode::Ask
    } else {
        mode
    };
    Setting { mode: m, previous: m, until: None, rules: Seq::empty() }
}

/// The setting with an expired bypass folded back.
pub open spec fn lapsed(s: Setting, now: int) -> Setting {
    if in_force(s, now) != s.mode {
        Setting { mode: in_force(s, now), until: None, ..s }
    } else {
        s
    }
}

/// The setting after a person chose a mode.
pub open spec fn chosen(s: Setting, mode: Mode, bypass: Bypass, now: int) -> Setting {
    let t = lapsed(s, now);
    if mode == Mode::Bypass {
        Setting {
            mode: Mode::Bypass,
            previous: if t.mode != Mode::Bypass {
                t.mode
            } else {
                t.previous
            },
            until: ends(bypass, now),
            ..t
        }
    } else {
        Setting { mode, previous: mode, until: None, ..t }
    }
}

pub open spec fn raise_text(current: Mode) -> Seq<char> {
    "the desktop is in `"@ + mode_word(current)
        + "` mode and only the person at this machine can loosen that. Nothing was changed. They do it from the mode chip in the status bar, or in Settings → AI & Intelligence. You can go the other way from here — set_mind_mode to `"@
        + (if current == Mode::Bypass {
        "auto"@
    } else {
        "ask"@
    })
        + "` or `plan` — and saying what you would do and waiting is usually the faster route anyway."@
}

/// What a lowering is answered: the mode it settled on, or why not.
pub open spec fn answer_to_lowering(s: Setting, mode: Mode, now: int) -> Result<Mode, Seq<char>> {
    let current = in_force(s, now);
    if looseness(mode) > looseness(current) {
        Err(raise_text(current))
    } else {
        Ok(mode)
    }
}

/// The setting after a lowering: an expired bypass is folded back either way, and a lowering out
/// of a bypass ends it.
pub open spec fn after_lowering(s: Setting, mode: Mode, now: int) -> Setting {
    let t = lapsed(s, now);
    if looseness(mode) < looseness(in_force(s, now)) {
        Setting { mode, previous: mode, until: None, ..t }
    } else {
        t
    }
}

pub open spec fn no_rule_text(app: Seq<char>, action: Seq<char>) -> Seq<char> {
    "`"@ + app + "."@ + action
        + "` cannot be allowed for a whole session: it is either graded dangerous or the app says it cannot be undone. Allow it once instead."@
}

/// Whether a rule stands for an action.
pub open spec fn has_rule(s: Setting, app: Seq<char>, action: Seq<char>) -> bool {
    s.rules.contains((app, action))
}

/// Everything but the rules for one action.
pub open spec fn others(app: Seq<char>, action: Seq<char>) -> spec_fn(Covers) -> bool {
    |c: Covers| c != (app, action)
}

// ── The decision table ──────────────────────────────────────────────

pub open spec fn undefined_text(grade: Seq<char>, app: Seq<char>, action: Seq<char>) -> Seq<char> {
    "`"@ + app + "."@ + action + "` is graded `"@ + grade
        + "`, which is not a level this OS defines. Nothing was run."@
}

pub open spec fn ceiling_text(
    grade: Seq<char>,
    app: Seq<char>,
    action: Seq<char>,
    ceiling: Seq<char>,
) -> Seq<char> {
    "`"@ + app + "."@ + action + "` is graded "@ + grade
        + ", and this machine does not allow callers like this past "@ + ceiling
        + " (`tool_permission`, on the AI page in Settings). The person was NOT asked, because nothing they could answer would let it run — this limit is the machine's standing policy, and no mode changes it. Say what you were trying to do; only someone at the keyboard can change that setting."@
}

pub open spec fn plan_text(app: Seq<char>, action: Seq<char>) -> Seq<char> {
    "the desktop is in plan mode, so `"@ + app + "."@ + action
        + "` was NOT run and nothing on this machine was changed. This is a setting, not a failure, and not something to work around: reading is still open to you. Say what you WOULD do — the exact actions and arguments — and let the person decide. They can switch the mode from the chip in the status bar."@
}

/// A rule turns an "ask" into a "run".
pub open spec fn asked_unless_ruled(s: Setting, app: Seq<char>, action: Seq<char>) -> Verdict {
    if has_rule(s, app, action) {
        Verdict::Run { unasked: true }
    } else {
        Verdict::Ask
    }
}

/// The whole table: the grade must be one, then the machine's ceiling, then the mode, then the
/// rules. `lasting` is whether the action's purpose says that it cannot be undone.
pub open spec fn verdict(
    s: Setting,
    grade: Seq<char>,
    app: Seq<char>,
    action: Seq<char>,
    lasting: bool,
    ceiling: Seq<char>,
    now: int,
) -> Verdict {
    match rank(grade) {
        None => Verdict::Refuse { why: undefined_text(grade, app, action) },
        Some(n) => if rank(ceiling) matches Some(c) && n > c {
            Verdict::Refuse { why: ceiling_text(grade, app, action, ceiling) }
        } else {
            match in_force(s, now) {
                Mode::Plan => if n == 0 {
                    Verdict::Run { unasked: false }
                } else {
                    Verdict::Refuse { why: plan_text(app, action) }
                },
                Mode::Bypass => Verdict::Run { unasked: n >= 2 },
                Mode::Auto => if n >= 3 || lasting {
                    asked_unless_ruled(s, app, action)
                } else {
                    Verdict::Run { unasked: n >= 2 }
                },
                Mode::Ask => if n >= 2 {
                    asked_unless_ruled(s, app, action)
                } else {
                    Verdict::Run { unasked: false }
                },
            }
        },
    }
}

impl Default for Modes {
    fn default() -> (r: Self)
        ensures
            r@ == fresh(Mode::Ask),
            sound(r@),
    {
        Modes::new(Mode::Ask)
    }
}

impl Modes {
    pub fn new(mode: Mode) -> (r: Self)
        ensures
            r@ == fresh(mode),
            sound(r@),
    {
        let mode = if mode == Mode::Bypass {
            Mode::Ask
        } else {
            mode
        };
        let r = Modes { mode, previous: mode, bypass_until: None, rules: Vec::new() };
        assert(covers(r.rules@) =~= Seq::<Covers>::empty());
        r
    }

    /// The mode in force right now.
    pub fn mode(&self, now: u64) -> (r: Mode)
        ensures
            r == in_force(self@, now as int),
    {
        if self.mode == Mode::Bypass {
            if let Some(until) = self.bypass_until {
                if now >= until {
                    return self.previous;
                }
            }
        }
        self.mode
    }

    /// What a bypass will fall back to. The mode itself when there is no bypass running.
    pub fn previous(&self, now: u64) -> (r: Mode)
        ensures
            r == if in_force(self@, now as int) == Mode::Bypass {
                self@.previous
            } else {
                in_force(self@, now as int)
            },
    {
        if self.mode(now) == Mode::Bypass {
            self.previous
        } else {
            self.mode(now)
        }
    }

    /// How much of the bypass is left. `None` when not in bypass, or when it runs until restart.
    pub fn bypass_left(&self, now: u64) -> (r: Option<u64>)
        ensures
            (r matches Some(left) ==> in_force(self@, now as int) == Mode::Bypass
                && self@.until is Some && left == clock::since(self@.until->0, now as int)),
            r is None ==> in_force(self@, now as int) != Mode::Bypass || self@.until is None,
    {
        if self.mode(now) != Mode::Bypass {
            return None;
        }
        match self.bypass_until {
            Some(until) => Some(elapsed(until, now)),
            None => None,
        }
    }

    /// True while a bypass with no deadline is running.
    pub fn bypass_until_restart(&self, now: u64) -> (r: bool)
        ensures
            r == (in_force(self@, now as int) == Mode::Bypass && self@.until is None),
    {
        self.mode(now) == Mode::Bypass && self.bypass_until.is_none()
    }

    pub fn rules(&self) -> (r: &[Rule])
        ensures
            r@.len() == self@.rules.len(),
            forall|i: int|
                0 <= i < r@.len() ==> self@.rules[i] == ((#[trigger] r@[i]).app@, r@[i].action@),
    {
        self.rules.as_slice()
    }

    /// Fold an expired bypass back into the stored mode. Returns whether anything changed.
    pub fn lapse(&mut self, now: u64) -> (r: bool)
        requires
            sound(old(self)@),
        ensures
            final(self)@ == lapsed(old(self)@, now as int),
            sound(final(self)@),
            r == (in_force(old(self)@, now as int) != old(self)@.mode),
    {
        let effective = self.mode(now);
        if effective != self.mode {
            self.mode = effective;
            self.bypass_until = None;
            return true;
        }
        false
    }

    /// A person chose a mode. A bypass is only ever reached through this.
    pub fn person_set_mode(&mut self, mode: Mode, bypass: Bypass, now: u64)
        requires
            sound(old(self)@),
            now <= u64::MAX - LONGEST_BYPASS,
        ensures
            final(self)@ == chosen(old(self)@, mode, bypass, now as int),
            sound(final(self)@),
    {
        let _ = self.lapse(now);
        if mode == Mode::Bypass {
            // A bypass chosen twice must not make its own previous mode `bypass`: that would
            // strand the machine there when it lapsed.
            if self.mode != Mode::Bypass {
                self.previous = self.mode;
            }
            self.mode = Mode::Bypass;
            self.bypass_until = bypass.deadline(now);
            return;
        }
        self.mode = mode;
        self.previous = mode;
        self.bypass_until = None;
    }

    /// Lower the mode from the socket. Raising is refused, and the refusal says where a person
    /// can do it.
    pub fn lower_to(&mut self, mode: Mode, now: u64) -> (r: Result<Mode, String>)
        requires
            sound(old(self)@),
        ensures
            final(self)@ == after_lowering(old(self)@, mode, now as int),
            sound(final(self)@),
            match answer_to_lowering(old(self)@, mode, now as int) {
                Ok(m) => r == Ok::<Mode, String>(m),
                Err(why) => r matches Err(text) && text@ == why,
            },
    {
        let _ = self.lapse(now);
        let current = self.mode(now);
        if mode == current {
            return Ok(current);
        }
        if mode.permissiveness() > current.permissiveness() {
            let mut why = "the desktop is in `".to_owned();
            why.append(current.as_str());
            why.append(
                "` mode and only the person at this machine can loosen that. Nothing was changed. They do it from the mode chip in the status bar, or in Settings → AI & Intelligence. You can go the other way from here — set_mind_mode to `",
            );
            why.append(
                if current == Mode::Bypass {
                    "auto"
                } else {
                    "ask"
                },
            );
            why.append(
                "` or `plan` — and saying what you would do and waiting is usually the faster route anyway.",
            );
            return Err(why);
        }
        self.mode = mode;
        self.previous = mode;
        self.bypass_until = None;
        Ok(mode)
    }

    fn rule_covers(&self, app: &str, action: &str) -> (r: bool)
        ensures
            r == has_rule(self@, app@, action@),
    {
        let mut i: usize = 0;
        while i < self.rules.len()
            invariant
                i <= self.rules@.len(),
                forall|k: int| 0 <= k < i ==> #[trigger] self@.rules[k] != (app@, action@),
            decreases self.rules@.len() - i,
        {
            assert(self@.rules[i as int] == (
                self.rules@[i as int].app@,
                self.rules@[i as int].action@,
            ));
            if same(self.rules[i].app.as_str(), app) && same(
                self.rules[i].action.as_str(),
                action,
            ) {
                return true;
            }
            i += 1;
        }
        false
    }

    /// A person pressed "Allow for this session".
    pub fn person_add_rule(&mut self, app: &str, action: &str, grade: &str, purpose: &str) -> (r:
        Result<(), String>)
        requires
            sound(old(self)@),
        ensures
            sound(final(self)@),
            approvals::rule_offered(grade@, purpose@) <==> r is Ok,
            r matches Err(text) ==> text@ == no_rule_text(app@, action@),
            final(self)@ == (Setting {
                rules: if approvals::rule_offered(grade@, purpose@) && !has_rule(
                    old(self)@,
                    app@,
                    action@,
                ) {
                    old(self)@.rules.push((app@, action@))
                } else {
                    old(self)@.rules
                },
                ..old(self)@
            }),
    {
        if !may_offer_session_rule(grade, purpose) {
            let mut why = "`".to_owned();
            why.append(app);
            why.append(".");
            why.append(action);
            why.append(
                "` cannot be allowed for a whole session: it is either graded dangerous or the app says it cannot be undone. Allow it once instead.",
            );
            return Err(why);
        }
        if self.rule_covers(app, action) {
            return Ok(());
        }
        let ghost was = self@.rules;
        self.rules.push(Rule { app: app.to_owned(), action: action.to_owned() });
        assert(self@.rules =~= was.push((app@, action@)));
        Ok(())
    }

    /// A person pressed the ✕ beside a rule.
    pub fn person_revoke_rule(&mut self, app: &str, action: &str)
        requires
            sound(old(self)@),
        ensures
            sound(final(self)@),
            final(self)@ == (Setting {
                rules: old(self)@.rules.filter(others(app@, action@)),
                ..old(self)@
            }),
    {
        let ghost all = self@.rules;
        let ghost f = others(app@, action@);
        let ghost mut n: int = 0;
        let ghost start = self@;
        let mut i: usize = 0;
        proof {
            seqs::lemma_filter_none(all, f);
            assert(all.take(0).filter(f) + all.skip(0) =~= all);
        }
        while i < self.rules.len()
            invariant
                0 <= n <= all.len(),
                f == others(app@, action@),
                i == all.take(n).filter(f).len(),
                self@ == (Setting { rules: all.take(n).filter(f) + all.skip(n), ..start }),
            decreases all.len() - n,
        {
            let ghost kept = all.take(n).filter(f);
            let ghost was = self.rules@;
            assert(covers(was)[i as int] == all[n]);
            proof {
                seqs::lemma_filter_take(all, f, n);
            }
            if same(self.rules[i].app.as_str(), app) && same(
                self.rules[i].action.as_str(),
                action,
            ) {
                let _ = self.rules.remove(i);
                proof {
                    assert(covers(self.rules@) =~= covers(was).remove(i as int));
                    assert(covers(was).remove(i as int) =~= kept + all.skip(n + 1));
                }
            } else {
                i += 1;
                assert(kept.push(all[n]) + all.skip(n + 1) =~= kept + all.skip(n));
            }
            proof {
                n = n + 1;
            }
        }
        proof {
            assert(self@.rules.len() == self.rules@.len());
            assert(all.take(n) =~= all);
            assert(all.filter(f) + all.skip(n) =~= all.filter(f));
        }
    }

    /// The whole decision table, in one place, for an action of which nothing more is known than
    /// its grade.
    pub fn decide(&self, grade: &str, app: &str, action: &str, ceiling: &str, now: u64) -> (r:
        Decision)
        ensures
            r@ == verdict(self@, grade@, app@, action@, false, ceiling@, now as int),
    {
        self.decide_knowing(grade, app, action, false, ceiling, now)
    }

    /// The whole decision table, in one place.
    ///
    /// Order matters: the machine ceiling is consulted before the mode, so no mode can reach past
    /// the owner's standing policy, and nothing above it is ever put in front of a person either.
    pub fn decide_knowing(
        &self,
        grade: &str,
        app: &str,
        action: &str,
        cannot_be_undone: bool,
        ceiling: &str,
        now: u64,
    ) -> (r: Decision)
        ensures
            r@ == verdict(self@, grade@, app@, action@, cannot_be_undone, ceiling@, now as int),
    {
        let rank = match grade_rank(grade) {
            Some(n) => n,
            None => {
                let mut why = "`".to_owned();
                why.append(app);
                why.append(".");
                why.append(action);
                why.append("` is graded `");
                why.append(grade);
                why.append("`, which is not a level this OS defines. Nothing was run.");
                return Decision::Refuse { why };
            },
        };
        if let Some(ceiling_rank) = grade_rank(ceiling) {
            if rank > ceiling_rank {
                let mut why = "`".to_owned();
                why.append(app);
                why.append(".");
                why.append(action);
                why.append("` is graded ");
                why.append(grade);
                why.append(", and this machine does not allow callers like this past ");
                why.append(ceiling);
                why.append(
                    " (`tool_permission`, on the AI page in Settings). The person was NOT asked, because nothing they could answer would let it run — this limit is the machine's standing policy, and no mode changes it. Say what you were trying to do; only someone at the keyboard can change that setting.",
                );
                return Decision::Refuse { why };
            }
        }
        // What `ask` mode would have done, which is what the audit log records.
        let would_ask = rank >= 2;
        match self.mode(now) {
            Mode::Plan => {
                if rank == 0 {
                    Decision::Run { unasked: false }
                } else {
                    let mut why = "the desktop is in plan mode, so `".to_owned();
                    why.append(app);
                    why.append(".");
                    why.append(action);
                    why.append(
                        "` was NOT run and nothing on this machine was changed. This is a setting, not a failure, and not something to work around: reading is still open to you. Say what you WOULD do — the exact actions and arguments — and let the person decide. They can switch the mode from the chip in the status bar.",
                    );
                    Decision::Refuse { why }
                }
            },
            Mode::Bypass => Decision::Run { unasked: would_ask },
            Mode::Auto => {
                if rank >= 3 || cannot_be_undone {
                    self.ask_or_rule(app, action)
                } else {
                    Decision::Run { unasked: would_ask }
                }
            },
            Mode::Ask => {
                if would_ask {
                    self.ask_or_rule(app, action)
                } else {
                    Decision::Run { unasked: false }
                }
            },
        }
    }

    /// A session rule turns an "ask" into a "run", and only ever that way round.
    fn ask_or_rule(&self, app: &str, action: &str) -> (r: Decision)
        ensures
            r@ == asked_unless_ruled(self@, app@, action@),
    {
        if self.rule_covers(app, action) {
            Decision::Run { unasked: true }
        } else {
            Decision::Ask
        }
    }
}

// ── Around the modes ────────────────────────────────────────────────

/// What the settings file says, clamped to something a machine may boot into.
pub open spec fn boots_into(saved: Seq<char>) -> Mode {
    match mode_named(saved) {
        Some(Mode::Bypass) => Mode::Ask,
        None => Mode::Ask,
        Some(mode) => mode,
    }
}

pub fn stored_mode(saved: &str) -> (r: Mode)
    ensures
        r == boots_into(saved@),
{
    match Mode::parse(saved) {
        Some(Mode::Bypass) => Mode::Ask,
        None => Mode::Ask,
        Some(mode) => mode,
    }
}

/// What goes in the settings file for a mode that is live right now.
pub open spec fn file_mode(mode: Mode, previous: Mode) -> Mode {
    if mode != Mode::Bypass {
        mode
    } else if previous == Mode::Bypass {
        Mode::Ask
    } else {
        previous
    }
}

/// What goes in the settings file for a mode that is live right now. A bypass stores the mode it
/// will fall back to, so the file is always something safe to start from.
pub fn to_store(mode: Mode, previous: Mode) -> (r: Mode)
    ensures
        r == file_mode(mode, previous),
        r != Mode::Bypass,
{
    match mode {
        Mode::Bypass => {
            if previous == Mode::Bypass {
                Mode::Ask
            } else {
                previous
            }
        },
        other => other,
    }
}

pub open spec fn not_a_mode_text(mode: Seq<char>) -> Seq<char> {
    "`"@ + mode
        + "` is not a mode. This desktop has four: plan (read only), ask (you are asked about anything that matters), auto (only destructive actions are asked about), bypass (nothing is asked). From here you can only tighten it."@
}

pub open spec fn no_bypass_text() -> Seq<char> {
    "bypass cannot be entered from here at all — it is the one mode that has to be chosen at the keyboard, on a confirmation that says what it means and for how long. Nothing was changed."@
}

/// Lower the mode from the socket; raising is refused. The mode it settled on is what the caller
/// then writes to the settings file.
pub fn lower_from_socket(modes: &mut Modes, mode: &str, now: u64) -> (r: Result<Mode, String>)
    requires
        sound(old(modes)@),
    ensures
        sound(final(modes)@),
        match mode_named(mode@) {
            None => final(modes)@ == old(modes)@ && (r matches Err(text) && text@
                == not_a_mode_text(mode@)),
            Some(Mode::Bypass) => final(modes)@ == old(modes)@ && (r matches Err(text) && text@
                == no_bypass_text()),
            Some(wanted) => {
                &&& final(modes)@ == after_lowering(old(modes)@, wanted, now as int)
                &&& match answer_to_lowering(old(modes)@, wanted, now as int) {
                    Ok(m) => r == Ok::<Mode, String>(m),
                    Err(why) => r matches Err(text) && text@ == why,
                }
            },
        },
{
    match Mode::parse(mode) {
        None => {
            let mut why = "`".to_owned();
            why.append(mode);
            why.append(
                "` is not a mode. This desktop has four: plan (read only), ask (you are asked about anything that matters), auto (only destructive actions are asked about), bypass (nothing is asked). From here you can only tighten it.",
            );
            Err(why)
        },
        Some(Mode::Bypass) => Err(
            "bypass cannot be entered from here at all — it is the one mode that has to be chosen at the keyboard, on a confirmation that says what it means and for how long. Nothing was changed.".to_owned(),
        ),
        Some(wanted) => modes.lower_to(wanted, now),
    }
}

/// Each rule as an object.
pub open spec fn rule_trees(rules: Seq<Covers>) -> Seq<Tree> {
    Seq::new(
        rules.len(),
        |i: int|
            Tree::Object(
                seq![("app"@, Tree::Str(rules[i].0)), ("action"@, Tree::Str(rules[i].1))],
            ),
    )
}

/// Everything the UI and `describe shell` show about the mode.
pub open spec fn picture(s: Setting, ceiling: Seq<char>, now: int) -> Tree {
    let mode = in_force(s, now);
    let counting = mode == Mode::Bypass && s.until is Some;
    Tree::Object(
        seq![
            ("mode"@, Tree::Str(mode_word(mode))),
            ("means"@, Tree::Str(mode_meaning(mode))),
            (
                "previous"@,
                Tree::Str(
                    mode_word(
                        if mode == Mode::Bypass {
                            s.previous
                        } else {
                            mode
                        },
                    ),
                ),
            ),
            ("ceiling"@, Tree::Str(ceiling)),
            (
                "bypass_expires_in_secs"@,
                if counting {
                    Tree::Num(json::whole((clock::since(s.until->0, now) / (SECOND as int)) as u64))
                } else {
                    Tree::Null
                },
            ),
            ("bypass_until_restart"@, Tree::Bool(mode == Mode::Bypass && s.until is None)),
            ("session_rules"@, Tree::Array(rule_trees(s.rules))),
        ],
    )
}

/// Everything the UI and `describe shell` show about the mode.
pub fn snapshot(modes: &Modes, ceiling: &str, now: u64) -> (r: Json)
    ensures
        r@ == picture(modes@, ceiling@, now as int),
{
    let mode = modes.mode(now);
    let mut rules: Vec<Json> = Vec::new();
    let mut i: usize = 0;
    while i < modes.rules.len()
        invariant
            i <= modes.rules@.len(),
            json::trees(rules@) == rule_trees(modes@.rules).take(i as int),
        decreases modes.rules@.len() - i,
    {
        let ghost was = rules@;
        let mut o: Vec<(String, Json)> = Vec::new();
        put_last(&mut o, "app", string(modes.rules[i].app.as_str()));
        put_last(&mut o, "action", string(modes.rules[i].action.as_str()));
        assert(json::entries(o@) =~= rule_trees(modes@.rules)[i as int]->Object_0);
        rules.push(Json::Object(o));
        i += 1;
        proof {
            assert(rules@.drop_last() =~= was);
            assert(rules@.last()@ == rule_trees(modes@.rules)[i - 1]);
            assert(json::trees(rules@) =~= rule_trees(modes@.rules).take(i as int));
        }
    }
    assert(rule_trees(modes@.rules).take(i as int) =~= rule_trees(modes@.rules));
    let left = match modes.bypass_left(now) {
        Some(d) => Json::Num(whole_number(d / SECOND)),
        None => Json::Null,
    };
    let mut o: Vec<(String, Json)> = Vec::new();
    put_last(&mut o, "mode", string(mode.as_str()));
    put_last(&mut o, "means", string(mode.meaning()));
    put_last(&mut o, "previous", string(modes.previous(now).as_str()));
    put_last(&mut o, "ceiling", string(ceiling));
    put_last(&mut o, "bypass_expires_in_secs", left);
    put_last(&mut o, "bypass_until_restart", Json::Bool(modes.bypass_until_restart(now)));
    put_last(&mut o, "session_rules", Json::Array(rules));
    assert(json::entries(o@) =~= picture(modes@, ceiling@, now as int)->Object_0);
    Json::Object(o)
}

/// `app.action` for each rule.
pub open spec fn rule_names(rules: Seq<Covers>) -> Seq<Seq<char>> {
    Seq::new(rules.len(), |i: int| rules[i].0 + "."@ + rules[i].1)
}

/// The session rules as one short string, for the UI's "has anything changed" check.
pub fn rules_summary(modes: &Modes) -> (r: String)
    ensures
        r@ == text::join(rule_names(modes@.rules), ","@),
{
    let mut names: Vec<String> = Vec::new();
    let mut i: usize = 0;
    while i < modes.rules.len()
        invariant
            i <= modes.rules@.len(),
            text::strs(names@) == rule_names(modes@.rules).take(i as int),
        decreases modes.rules@.len() - i,
    {
        let ghost was = text::strs(names@);
        let mut name = modes.rules[i].app.clone();
        name.append(".");
        name.append(modes.rules[i].action.as_str());
        assert(name@ == rule_names(modes@.rules)[i as int]);
        let ghost n = name@;
        names.push(name);
        i += 1;
        assert(text::strs(names@) =~= was.push(n));
        assert(text::strs(names@) =~= rule_names(modes@.rules).take(i as int));
    }
    assert(rule_names(modes@.rules).take(i as int) =~= rule_names(modes@.rules));
    joined(names.as_slice(), ",")
}

/// The chip's text: the mode, plus the countdown while one is running, never rounded up.
pub open spec fn chip(s: Setting, now: int) -> Seq<char> {
    let mode = in_force(s, now);
    if mode != Mode::Bypass {
        mode_label(mode)
    } else {
        match s.until {
            Some(at) => {
                let secs = clock::since(at, now) / (SECOND as int);
                if secs >= 60 {
                    "Bypass "@ + text::dec((secs / 60) as nat) + "m"@
                } else {
                    "Bypass "@ + text::dec(secs as nat) + "s"@
                }
            },
            None => "Bypass · no end"@,
        }
    }
}

pub fn chip_label(modes: &Modes, now: u64) -> (r: String)
    ensures
        r@ == chip(modes@, now as int),
{
    let mode = modes.mode(now);
    if mode != Mode::Bypass {
        return mode.label().to_owned();
    }
    match modes.bypass_left(now) {
        Some(left) => {
            let secs: u64 = left / SECOND;
            let mut out = "Bypass ".to_owned();
            if secs >= 60 {
                out.append(decimal(secs / 60).as_str());
                out.append("m");
            } else {
                out.append(decimal(secs).as_str());
                out.append("s");
            }
            out
        },
        None => "Bypass · no end".to_owned(),
    }
}

// ── Everything it did without being asked ───────────────────────────

/// One action that ran without anybody being asked about it.
#[derive(Clone, Debug, PartialEq, Eq)]
pub struct AuditEntry {
    /// Local `HH:MM`.
    pub at: String,
    /// Seconds since the epoch, for the file.
    pub unix: u64,
    pub mode: String,
    pub requester: String,
    pub app: String,
    pub action: String,
    /// One `key: value` per argument, the same rows the card shows.
    pub args: Vec<String>,
    pub grade: String,
    /// What happened when it ran: `ok`, `failed`, or whatever the reporter said.
    pub outcome: String,
}

/// What an [`AuditEntry`] says.
pub struct Audited {
    pub at: Seq<char>,
    pub unix: u64,
    pub mode: Seq<char>,
    pub requester: Seq<char>,
    pub app: Seq<char>,
    pub action: Seq<char>,
    pub args: Seq<Seq<char>>,
    pub grade: Seq<char>,
    pub outcome: Seq<char>,
}

impl View for AuditEntry {
    type V = Audited;

    open spec fn view(&self) -> Audited {
        Audited {
            at: self.at@,
            unix: self.unix,
            mode: self.mode@,
            requester: self.requester@,
            app: self.app@,
            action: self.action@,
            args: text::strs(self.args@),
            grade: self.grade@,
            outcome: self.outcome@,
        }
    }
}

pub open spec fn audit_tree(e: Audited) -> Tree {
    Tree::Object(
        seq![
            ("at"@, Tree::Str(e.at)),
            ("unix"@, Tree::Num(json::whole(e.unix))),
            ("mode"@, Tree::Str(e.mode)),
            ("requester"@, Tree::Str(e.requester)),
            ("app"@, Tree::Str(e.app)),
            ("action"@, Tree::Str(e.action)),
            ("args"@, Tree::Array(json::string_trees(e.args))),
            ("grade"@, Tree::Str(e.grade)),
            ("outcome"@, Tree::Str(e.outcome)),
        ],
    )
}

impl AuditEntry {
    /// The entry as the log file and `describe shell` hold it.
    pub fn to_json(&self) -> (r: Json)
        ensures
            r@ == audit_tree(self@),
    {
        let mut o: Vec<(String, Json)> = Vec::new();
        put_last(&mut o, "at", string(self.at.as_str()));
        put_last(&mut o, "unix", Json::Num(whole_number(self.unix)));
        put_last(&mut o, "mode", string(self.mode.as_str()));
        put_last(&mut o, "requester", string(self.requester.as_str()));
        put_last(&mut o, "app", string(self.app.as_str()));
        put_last(&mut o, "action", string(self.action.as_str()));
        put_last(&mut o, "args", strings(self.args.as_slice()));
        put_last(&mut o, "grade", string(self.grade.as_str()));
        put_last(&mut o, "outcome", string(self.outcome.as_str()));
        assert(json::entries(o@) =~= audit_tree(self@)->Object_0);
        Json::Object(o)
    }

    /// The one line the menu shows.
    pub fn line(&self) -> (r: String)
        ensures
            r@ == self@.at + " · "@ + self@.app + "."@ + self@.action + " — "@ + self@.outcome,
    {
        let mut out = self.at.clone();
        out.append(" · ");
        out.append(self.app.as_str());
        out.append(".");
        out.append(self.action.as_str());
        out.append(" — ");
        out.append(self.outcome.as_str());
        out
    }

    /// The same entry, written again.
    pub fn copy(&self) -> (r: AuditEntry)
        ensures
            r@ == self@,
    {
        let mut args: Vec<String> = Vec::new();
        let mut i: usize = 0;
        while i < self.args.len()
            invariant
                i <= self.args@.len(),
                args@.len() == i,
                forall|k: int| 0 <= k < i ==> (#[trigger] args@[k])@ == self.args@[k]@,
            decreases self.args@.len() - i,
        {
            args.push(self.args[i].clone());
            i += 1;
        }
        assert(text::strs(args@) =~= text::strs(self.args@));
        AuditEntry {
            at: self.at.clone(),
            unix: self.unix,
            mode: self.mode.clone(),
            requester: self.requester.clone(),
            app: self.app.clone(),
            action: self.action.clone(),
            args,
            grade: self.grade.clone(),
            outcome: self.outcome.clone(),
        }
    }
}

/// What the entries say.
pub open spec fn audits(s: Seq<AuditEntry>) -> Seq<Audited> {
    Seq::new(s.len(), |i: int| s[i]@)
}

/// The entry a report makes.
pub open spec fn reported(
    at: Seq<char>,
    unix: u64,
    mode: Seq<char>,
    requester: Seq<char>,
    app: Seq<char>,
    action: Seq<char>,
    args: Tree,
    grade: Seq<char>,
    outcome: Seq<char>,
) -> Audited {
    Audited {
        at,
        unix,
        mode,
        requester: text::trim(requester),
        app,
        action,
        args: approvals::rows_of(args),
        grade,
        outcome: text::trim(outcome),
    }
}

/// Record one unasked action. Nothing here authorises anything; it only writes down what was.
pub fn record(
    list: &mut Vec<AuditEntry>,
    at: &str,
    unix: u64,
    mode: &str,
    requester: &str,
    app: &str,
    action: &str,
    args: &Json,
    grade: &str,
    outcome: &str,
) -> (r: AuditEntry)
    ensures
        r@ == reported(
            at@,
            unix,
            mode@,
            requester@,
            app@,
            action@,
            args@,
            grade@,
            outcome@,
        ),
        audits(final(list)@) == approvals::tail(
            audits(old(list)@).push(r@),
            AUDIT_MEMORY as int,
        ),
{
    let entry = AuditEntry {
        at: at.to_owned(),
        unix,
        mode: mode.to_owned(),
        requester: trimmed(requester),
        app: app.to_owned(),
        action: action.to_owned(),
        args: args_rows(args),
        grade: grade.to_owned(),
        outcome: trimmed(outcome),
    };
    let ghost was = audits(list@);
    list.push(entry.copy());
    assert(audits(list@) =~= was.push(entry@));
    if list.len() > AUDIT_MEMORY {
        let over: usize = list.len() - AUDIT_MEMORY;
        let ghost all = list@;
        let kept = list.split_off(over);
        *list = kept;
        assert(audits(list@) =~= audits(all).skip(over as int));
    }
    entry
}

/// The most recent entries, newest last.
pub fn recent(list: &[AuditEntry], count: usize) -> (r: Vec<AuditEntry>)
    ensures
        audits(r@) == approvals::tail(audits(list@), count as int),
{
    let skip: usize = if list.len() > count {
        list.len() - count
    } else {
        0
    };
    let mut out: Vec<AuditEntry> = Vec::new();
    let mut i: usize = skip;
    while i < list.len()
        invariant
            skip <= i <= list@.len(),
            audits(out@) == audits(list@).subrange(skip as int, i as int),
        decreases list@.len() - i,
    {
        let one = list[i].copy();
        let ghost was = audits(out@);
        let ghost e = one@;
        out.push(one);
        i += 1;
        assert(audits(out@) =~= was.push(e));
        assert(audits(out@) =~= audits(list@).subrange(skip as int, i as int));
    }
    assert(audits(list@).subrange(skip as int, i as int) =~= approvals::tail(
        audits(list@),
        count as int,
    ));
    out
}

/// Each entry as it is published.
pub open spec fn audit_trees(s: Seq<Audited>) -> Seq<Tree> {
    Seq::new(s.len(), |i: int| audit_tree(s[i]))
}

/// What `describe shell` publishes under `mind_audit_recent`.
pub fn recent_for_describe(list: &[AuditEntry]) -> (r: Json)
    ensures
        r@ == Tree::Array(
            audit_trees(approvals::tail(audits(list@), AUDIT_PUBLISHED as int)),
        ),
{
    let last = recent(list, AUDIT_PUBLISHED);
    let mut out: Vec<Json> = Vec::new();
    let mut i: usize = 0;
    while i < last.len()
        invariant
            i <= last@.len(),
            json::trees(out@) == audit_trees(audits(last@)).take(i as int),
        decreases last@.len() - i,
    {
        let ghost was = out@;
        let one = last[i].to_json();
        out.push(one);
        i += 1;
        proof {
            assert(out@.drop_last() =~= was);
            assert(out@.last()@ == audit_trees(audits(last@))[i - 1]);
            assert(json::trees(out@) =~= audit_trees(audits(last@)).take(i as int));
        }
    }
    assert(audit_trees(audits(last@)).take(i as int) =~= audit_trees(audits(last@)));
    Json::Array(out)
}

/// Whether the audit file has grown past its bound.
pub fn log_is_too_big(bytes: u64) -> (r: bool)
    ensures
        r == (bytes > AUDIT_FILE_MAX),
{
    bytes > AUDIT_FILE_MAX
}

/// The audit file with only its last lines kept.
pub fn trimmed_log(body: &str) -> (r: String)
    ensures
        r@ == text::join(approvals::tail(text::lines(body@), AUDIT_FILE_KEEP as int), "\n"@) + "\n"@,
{
    let mut all = lines_of(body);
    let ghost before = text::strs(all@);
    let skip: usize = if all.len() > AUDIT_FILE_KEEP {
        all.len() - AUDIT_FILE_KEEP
    } else {
        0
    };
    let kept = all.split_off(skip);
    assert(text::strs(kept@) =~= approvals::tail(before, AUDIT_FILE_KEEP as int));
    let mut out = joined(kept.as_slice(), "\n");
    out.append("\n");
    out
}

// ── Laws ────────────────────────────────────────────────────────────

/// No mode, no rule and no bypass reaches past the machine's ceiling, and nothing above it is
/// ever asked about.
pub proof fn law_the_ceiling_is_above_every_mode(
    s: Setting,
    grade: Seq<char>,
    app: Seq<char>,
    action: Seq<char>,
    lasting: bool,
    ceiling: Seq<char>,
    now: int,
)
    requires
        rank(grade) matches Some(n) && (rank(ceiling) matches Some(c) && n > c),
    ensures
        verdict(s, grade, app, action, lasting, ceiling, now) is Refuse,
{
}

/// An action whose grade this OS does not define is refused in every mode.
pub proof fn law_an_undefined_grade_is_refused(
    s: Setting,
    grade: Seq<char>,
    app: Seq<char>,
    action: Seq<char>,
    lasting: bool,
    ceiling: Seq<char>,
    now: int,
)
    requires
        rank(grade) is None,
    ensures
        verdict(s, grade, app, action, lasting, ceiling, now) is Refuse,
{
}

/// In plan mode the only thing that runs is reading, and nothing is asked about.
pub proof fn law_plan_touches_nothing(
    s: Setting,
    grade: Seq<char>,
    app: Seq<char>,
    action: Seq<char>,
    lasting: bool,
    ceiling: Seq<char>,
    now: int,
)
    requires
        in_force(s, now) == Mode::Plan,
    ensures
        verdict(s, grade, app, action, lasting, ceiling, now) !is Ask,
        verdict(s, grade, app, action, lasting, ceiling, now) is Run ==> grade == "safe"@,
{
}

/// A rule is not a way around anything: adding rules turns an ask into a run and changes no other
/// verdict.
pub proof fn law_a_rule_only_answers_an_ask(
    s: Setting,
    rules: Seq<Covers>,
    grade: Seq<char>,
    app: Seq<char>,
    action: Seq<char>,
    lasting: bool,
    ceiling: Seq<char>,
    now: int,
)
    requires
        forall|c: Covers| #[trigger] s.rules.contains(c) ==> rules.contains(c),
    ensures
        ({
            let without = verdict(s, grade, app, action, lasting, ceiling, now);
            let with = verdict(
                Setting { rules, ..s },
                grade,
                app,
                action,
                lasting,
                ceiling,
                now,
            );
            if without is Ask {
                with is Ask || with == (Verdict::Run { unasked: true })
            } else {
                with == without
            }
        }),
{
    let t = Setting { rules, ..s };
    assert(in_force(t, now) == in_force(s, now));
    assert(has_rule(s, app, action) ==> has_rule(t, app, action));
}

/// A rule covers its own action and nothing else: revoking it brings the asking back, and leaves
/// every other action as it was.
pub proof fn law_revoking_a_rule_undoes_it(
    s: Setting,
    app: Seq<char>,
    action: Seq<char>,
    app2: Seq<char>,
    action2: Seq<char>,
)
    ensures
        ({
            let t = Setting { rules: s.rules.filter(others(app, action)), ..s };
            &&& !has_rule(t, app, action)
            &&& (app2, action2) != (app, action) ==> (has_rule(t, app2, action2) <==> has_rule(
                s,
                app2,
                action2,
            ))
        }),
{
    let f = others(app, action);
    seqs::lemma_filter_from(s.rules, f);
    let w = s.rules.filter(f);
    if w.contains((app, action)) {
        let i = choose|i: int| 0 <= i < w.len() && w[i] == (app, action);
        assert(f(w[i]));
    }
    if w.contains((app2, action2)) {
        let i = choose|i: int| 0 <= i < w.len() && w[i] == (app2, action2);
        assert(s.rules.contains(w[i]));
    }
}

/// A looser mode never stops what a tighter one lets run.
pub proof fn law_looser_modes_let_more_run(
    s: Setting,
    t: Setting,
    grade: Seq<char>,
    app: Seq<char>,
    action: Seq<char>,
    ceiling: Seq<char>,
    now: int,
)
    requires
        s.rules == t.rules,
        looseness(in_force(s, now)) <= looseness(in_force(t, now)),
        verdict(s, grade, app, action, false, ceiling, now) is Run,
    ensures
        verdict(t, grade, app, action, false, ceiling, now) is Run,
{
}

/// What runs without being asked about, where `ask` mode would have asked, says so.
pub proof fn law_what_is_not_asked_is_recorded(
    s: Setting,
    grade: Seq<char>,
    app: Seq<char>,
    action: Seq<char>,
    lasting: bool,
    ceiling: Seq<char>,
    now: int,
)
    requires
        verdict(s, grade, app, action, lasting, ceiling, now) == (Verdict::Run { unasked: false }),
    ensures
        verdict(
            Setting { mode: Mode::Ask, previous: Mode::Ask, until: None, rules: Seq::empty() },
            grade,
            app,
            action,
            lasting,
            ceiling,
            now,
        ) is Run,
{
}

/// The socket can only tighten: at no time after a lowering is the mode looser than the one in
/// force before it.
pub proof fn law_the_socket_cannot_raise(s: Setting, mode: Mode, now: int, later: int)
    requires
        sound(s),
        now <= later,
    ensures
        looseness(in_force(after_lowering(s, mode, now), later)) <= looseness(in_force(s, now)),
        answer_to_lowering(s, mode, now) is Ok && mode != Mode::Bypass ==> in_force(
            after_lowering(s, mode, now),
            later,
        ) == mode,
{
}

/// Nothing but a person's choice starts a bypass: what a fresh setting, a lapse or a lowering
/// leaves in bypass was in bypass already.
pub proof fn law_only_a_person_starts_a_bypass(s: Setting, mode: Mode, now: int)
    ensures
        fresh(mode).mode != Mode::Bypass,
        lapsed(s, now).mode == Mode::Bypass ==> s.mode == Mode::Bypass,
        after_lowering(s, mode, now).mode == Mode::Bypass ==> s.mode == Mode::Bypass,
{
}

/// A bypass is never persisted and never booted into.
pub proof fn law_a_bypass_is_never_stored(mode: Mode, previous: Mode, saved: Seq<char>)
    ensures
        file_mode(mode, previous) != Mode::Bypass,
        boots_into(saved) != Mode::Bypass,
{
}

/// A bypass with an end comes back to the mode it was chosen over, and chosen twice it still
/// does.
pub proof fn law_a_bypass_comes_back(s: Setting, bypass: Bypass, now: int, later: int)
    requires
        sound(s),
        ends(bypass, now) matches Some(at) && later >= at,
    ensures
        in_force(chosen(s, Mode::Bypass, bypass, now), later) == if in_force(s, now)
            == Mode::Bypass {
            s.previous
        } else {
            in_force(s, now)
        },
        in_force(chosen(s, Mode::Bypass, bypass, now), later) != Mode::Bypass,
{
}

/// Until it ends, a bypass is in force; one without an end never lapses on its own.
pub proof fn law_a_bypass_lasts(s: Setting, bypass: Bypass, now: int, later: int)
    requires
        ends(bypass, now) matches Some(at) ==> later < at,
    ensures
        in_force(chosen(s, Mode::Bypass, bypass, now), later) == Mode::Bypass,
{
}

/// Folding an expired bypass back changes no decision from then on, and there is nothing left to
/// fold a second time.
pub proof fn law_a_lapse_changes_no_decision(s: Setting, now: int, later: int)
    requires
        sound(s),
        now <= later,
    ensures
        in_force(lapsed(s, now), later) == in_force(s, later),
        lapsed(lapsed(s, now), now) == lapsed(s, now),
{
}

/// The countdown on the chip is never rounded up: it stands for no more time than is left, and
/// less than a minute is told in seconds.
pub proof fn law_the_countdown_is_not_rounded_up(s: Setting, now: int, at: int)
    requires
        in_force(s, now) == Mode::Bypass,
        s.until == Some(at),
        sound(s),
    ensures
        ({
            let left = clock::since(at, now);
            let secs = left / (SECOND as int);
            if left < 60 * SECOND {
                chip(s, now) == "Bypass "@ + text::dec(secs as nat) + "s"@ && secs * SECOND <= left
            } else {
                chip(s, now) == "Bypass "@ + text::dec((secs / 60) as nat) + "m"@ && (secs / 60)
                    * 60 * SECOND <= left
            }
        }),
{
}

/// The word for a mode names it.
pub proof fn law_a_mode_answers_to_its_word(m: Mode)
    ensures
        mode_named(mode_word(m)) == Some(m),
{
    reveal_strlit("plan");
    reveal_strlit("ask");
    reveal_strlit("auto");
    reveal_strlit("bypass");
    lemma_word("plan");
    lemma_word("ask");
    lemma_word("auto");
    lemma_word("bypass");
    assert("plan"@.len() == 4 && "ask"@.len() == 3 && "auto"@.len() == 4 && "bypass"@.len() == 6);
    assert("plan"@[0] == 'p' && "auto"@[0] == 'a');
}

proof fn lemma_word(w: &str)
    requires
        w@.len() > 0,
        forall|i: int| 0 <= i < w@.len() ==> 'a' <= #[trigger] w@[i] <= 'z',
    ensures
        text::lower(text::trim(w@)) == w@,
{
    assert(!text::is_white(w@[0]));
    assert(!text::is_white(w@[w@.len() - 1]));
    assert(text::trim(w@) == w@);
    assert(text::lower(w@) =~= w@);
}

// ── The table, grade by grade ───────────────────────────────────────

/// The grades this OS defines, the harmless one first.
pub open spec fn ladder() -> Seq<Seq<char>> {
    seq!["safe"@, "standard"@, "sensitive"@, "dangerous"@]
}

/// Whether a grade is no higher than a ceiling. A ceiling that is no grade holds nothing back.
pub open spec fn below(grade: Seq<char>, ceiling: Seq<char>) -> bool {
    forall|i: int, j: int|
        0 <= i < 4 && 0 <= j < 4 && grade == #[trigger] ladder()[i] && ceiling
            == #[trigger] ladder()[j] ==> i <= j
}

proof fn lemma_grades(i: int)
    requires
        0 <= i < 4,
    ensures
        rank(ladder()[i]) == Some(i),
{
    reveal_strlit("safe");
    reveal_strlit("standard");
    reveal_strlit("sensitive");
    reveal_strlit("dangerous");
    assert("safe"@.len() == 4 && "standard"@.len() == 8 && "sensitive"@.len() == 9
        && "dangerous"@.len() == 9);
    assert("sensitive"@[0] == 's' && "dangerous"@[0] == 'd');
}

proof fn lemma_below(i: int, ceiling: Seq<char>)
    requires
        0 <= i < 4,
    ensures
        below(ladder()[i], ceiling) <==> (rank(ceiling) matches Some(c) ==> i <= c),
{
    lemma_grades(0);
    lemma_grades(1);
    lemma_grades(2);
    lemma_grades(3);
    if rank(ceiling) is Some {
        assert(ceiling == ladder()[rank(ceiling)->0]);
        assert(ladder()[i] == ladder()[i]);
    }
}

/// While a bypass runs, nothing is asked: whatever the machine allows at all runs, whether or not
/// it can be undone and whether or not a rule stands for it, and what `ask` mode would have asked
/// about is marked for the record.
pub proof fn law_a_bypass_asks_nothing(
    s: Setting,
    i: int,
    app: Seq<char>,
    action: Seq<char>,
    lasting: bool,
    ceiling: Seq<char>,
    now: int,
)
    requires
        s.mode == Mode::Bypass,
        s.until matches Some(at) ==> now < at,
        0 <= i < 4,
    ensures
        below(ladder()[i], ceiling) ==> verdict(
            s,
            ladder()[i],
            app,
            action,
            lasting,
            ceiling,
            now,
        ) == (Verdict::Run { unasked: i == 2 || i == 3 }),
        !below(ladder()[i], ceiling) ==> verdict(
            s,
            ladder()[i],
            app,
            action,
            lasting,
            ceiling,
            now,
        ) is Refuse,
{
    lemma_grades(i);
    lemma_below(i, ceiling);
}

/// A person who chose a bypass is not asked again until it ends: fifteen minutes later, an hour
/// later, or never before a restart, as they chose. From then on it is as it was before.
pub proof fn law_a_bypass_runs_its_time(s: Setting, bypass: Bypass, now: int, later: int)
    requires
        sound(s),
        now <= later,
    ensures
        ({
            let t = chosen(s, Mode::Bypass, bypass, now);
            let over = match bypass {
                Bypass::Minutes15 => later - now >= 900_000_000_000,
                Bypass::Hour => later - now >= 3_600_000_000_000,
                Bypass::UntilRestart => false,
            };
            &&& !over ==> in_force(t, later) == Mode::Bypass
            &&& over && s.mode != Mode::Bypass ==> in_force(t, later) == s.mode
            &&& t.rules == s.rules
        }),
{
}

/// In plan mode what is safe runs and everything else is refused, and nobody is asked.
pub proof fn law_plan_reads_only(
    s: Setting,
    i: int,
    app: Seq<char>,
    action: Seq<char>,
    lasting: bool,
    ceiling: Seq<char>,
    now: int,
)
    requires
        s.mode == Mode::Plan,
        0 <= i < 4,
    ensures
        ({
            let v = verdict(s, ladder()[i], app, action, lasting, ceiling, now);
            &&& i == 0 ==> v == (Verdict::Run { unasked: false })
            &&& i > 0 ==> v is Refuse
        }),
{
    lemma_grades(i);
    lemma_below(i, ceiling);
    lemma_grades(0);
    lemma_grades(1);
    lemma_grades(2);
    lemma_grades(3);
}

/// In ask mode what is safe or standard runs, and what is sensitive or dangerous is asked about
/// unless a rule stands for that very action.
pub proof fn law_ask_asks_from_sensitive_up(
    s: Setting,
    i: int,
    app: Seq<char>,
    action: Seq<char>,
    lasting: bool,
    ceiling: Seq<char>,
    now: int,
)
    requires
        s.mode == Mode::Ask,
        0 <= i < 4,
        below(ladder()[i], ceiling),
    ensures
        ({
            let v = verdict(s, ladder()[i], app, action, lasting, ceiling, now);
            let ruled = exists|k: int| 0 <= k < s.rules.len() && #[trigger] s.rules[k] == (app, action);
            &&& i < 2 ==> v == (Verdict::Run { unasked: false })
            &&& i >= 2 && ruled ==> v == (Verdict::Run { unasked: true })
            &&& i >= 2 && !ruled ==> v is Ask
        }),
{
    lemma_grades(i);
    lemma_below(i, ceiling);
}

/// In auto mode what can be undone runs up to sensitive, which is marked for the record, and only
/// what is dangerous or cannot be undone is asked about, unless a rule stands for that very action.
pub proof fn law_auto_asks_about_what_lasts(
    s: Setting,
    i: int,
    app: Seq<char>,
    action: Seq<char>,
    lasting: bool,
    ceiling: Seq<char>,
    now: int,
)
    requires
        s.mode == Mode::Auto,
        0 <= i < 4,
        below(ladder()[i], ceiling),
    ensures
        ({
            let v = verdict(s, ladder()[i], app, action, lasting, ceiling, now);
            let ruled = exists|k: int| 0 <= k < s.rules.len() && #[trigger] s.rules[k] == (app, action);
            let asks = i == 3 || lasting;
            &&& !asks ==> v == (Verdict::Run { unasked: i == 2 })
            &&& asks && ruled ==> v == (Verdict::Run { unasked: true })
            &&& asks && !ruled ==> v is Ask
        }),
{
    lemma_grades(i);
    lemma_below(i, ceiling);
}

/// What a bypass lets run is at least what every other mode does, lasting or not.
pub proof fn law_a_bypass_stops_nothing(
    s: Setting,
    t: Setting,
    grade: Seq<char>,
    app: Seq<char>,
    action: Seq<char>,
    lasting: bool,
    ceiling: Seq<char>,
    now: int,
)
    requires
        in_force(t, now) == Mode::Bypass,
        !(verdict(s, grade, app, action, lasting, ceiling, now) is Refuse),
    ensures
        verdict(t, grade, app, action, lasting, ceiling, now) is Run,
{
}

/// A word is a mode in any letter case and with white space round it, and only the four are.
pub proof fn law_only_four_words_are_modes(text: Seq<char>, m: Mode)
    ensures
        mode_named(text) == Some(m) <==> text::lower(text::trim(text)) == mode_word(m),
        mode_named(text) is None <==> {
            let t = text::lower(text::trim(text));
            t != "plan"@ && t != "ask"@ && t != "auto"@ && t != "bypass"@
        },
        mode_word(Mode::Plan) == "plan"@ && mode_word(Mode::Ask) == "ask"@ && mode_word(Mode::Auto)
            == "auto"@ && mode_word(Mode::Bypass) == "bypass"@,
{
    reveal_strlit("plan");
    reveal_strlit("ask");
    reveal_strlit("auto");
    reveal_strlit("bypass");
    assert("plan"@.len() == 4 && "ask"@.len() == 3 && "auto"@.len() == 4 && "bypass"@.len() == 6);
    assert("plan"@[0] == 'p' && "auto"@[0] == 'a');
}

/// What boots is what was stored: a mode that was in force when the shell went down comes back,
/// except a bypass, for which the mode under it does, and a file that says nothing known means ask.
pub proof fn law_what_was_stored_boots(mode: Mode, previous: Mode, saved: Seq<char>)
    requires
        previous != Mode::Bypass,
    ensures
        boots_into(mode_word(file_mode(mode, previous))) == if mode == Mode::Bypass {
            previous
        } else {
            mode
        },
        mode_named(saved) is None ==> boots_into(saved) == Mode::Ask,
{
    law_a_mode_answers_to_its_word(mode);
    law_a_mode_answers_to_its_word(previous);
}

/// Going down the ladder always works and going up never does: a lowering is refused exactly where
/// it would loosen, and what it settles on stays until a person says otherwise.
pub proof fn law_tightening_always_works(s: Setting, mode: Mode, now: int, later: int)
    requires
        sound(s),
        now <= later,
        mode != Mode::Bypass,
    ensures
        in_force(s, now) == Mode::Bypass ==> answer_to_lowering(s, mode, now) is Ok,
        in_force(s, now) == Mode::Auto ==> answer_to_lowering(s, mode, now) is Ok,
        in_force(s, now) == Mode::Ask ==> (answer_to_lowering(s, mode, now) is Ok <==> mode
            != Mode::Auto),
        in_force(s, now) == Mode::Plan ==> (answer_to_lowering(s, mode, now) is Ok <==> mode
            == Mode::Plan),
        answer_to_lowering(s, mode, now) is Ok ==> in_force(after_lowering(s, mode, now), later)
            == mode && answer_to_lowering(s, mode, now) == Ok::<Mode, Seq<char>>(mode),
        answer_to_lowering(s, mode, now) is Err ==> in_force(after_lowering(s, mode, now), later)
            == in_force(s, later),
        after_lowering(s, mode, now).rules == s.rules,
{
}

/// The chip shows the mode in force, and in a bypass the whole minutes that are left, or the whole
/// seconds in the last minute.
pub proof fn law_the_chip_shows_the_mode(s: Setting, now: int, left: int)
    requires
        sound(s),
        0 < left,
        s.until is Some ==> s.until == Some(now + left),
    ensures
        s.mode == Mode::Plan ==> chip(s, now) == "Plan"@,
        s.mode == Mode::Ask ==> chip(s, now) == "Ask"@,
        s.mode == Mode::Auto ==> chip(s, now) == "Auto"@,
        s.mode == Mode::Bypass && s.until is None ==> chip(s, now) == "Bypass · no end"@,
        s.mode == Mode::Bypass && s.until is Some && left < 60_000_000_000 ==> chip(s, now)
            == "Bypass "@ + text::dec((left / 1_000_000_000) as nat) + "s"@,
        s.mode == Mode::Bypass && s.until is Some && left >= 60_000_000_000 ==> chip(s, now)
            == "Bypass "@ + text::dec((left / 60_000_000_000) as nat) + "m"@,
{
    if left >= 60_000_000_000 {
        assert((left / 1_000_000_000) / 60 == left / 60_000_000_000);
    }
}

/// A person who is in a bypass is asked nothing, whatever the action says of itself: what the
/// machine allows runs.
pub proof fn law_no_decision_asks_in_a_bypass(
    modes: Modes,
    grade: &str,
    app: &str,
    action: &str,
    cannot_be_undone: bool,
    ceiling: &str,
    now: u64,
    r: Decision,
    i: int,
)
    requires
        call_ensures(
            Modes::decide_knowing,
            (&modes, grade, app, action, cannot_be_undone, ceiling, now),
            r,
        ),
        in_force(modes@, now as int) == Mode::Bypass,
        0 <= i < 4,
        grade@ == ladder()[i],
        below(grade@, ceiling@),
    ensures
        r == (Decision::Run { unasked: i >= 2 }),
{
    lemma_grades(i);
    lemma_below(i, ceiling@);
}

/// A rule that a person adds covers its action from then on, whatever else is there stays, and
/// nothing dangerous or final gets one.
pub proof fn law_a_rule_is_added_for_its_action(
    modes: &mut Modes,
    app: &str,
    action: &str,
    grade: &str,
    purpose: &str,
    other: Covers,
    r: Result<(), String>,
)
    requires
        call_ensures(Modes::person_add_rule, (modes, app, action, grade, purpose), r),
    ensures
        grade@ == "dangerous"@ ==> r is Err,
        r is Ok ==> final(modes)@.rules.contains((app@, action@)),
        r is Err ==> final(modes)@ == old(modes)@,
        other != (app@, action@) ==> (final(modes)@.rules.contains(other) <==> old(modes)@.rules.contains(other)),
        old(modes)@.rules.contains((app@, action@)) ==> final(modes)@.rules == old(modes)@.rules,
        final(modes)@.mode == old(modes)@.mode && final(modes)@.until == old(modes)@.until
            && final(modes)@.previous == old(modes)@.previous,
{
    let was = old(modes)@.rules;
    let one = (app@, action@);
    assert(was.push(one)[was.len() as int] == one);
    if was.contains(other) {
        let i = choose|i: int| 0 <= i < was.len() && was[i] == other;
        assert(was.push(one)[i] == other);
    }
    if was.push(one).contains(other) && other != one {
        let i = choose|i: int| 0 <= i < was.push(one).len() && was.push(one)[i] == other;
        assert(was[i] == other);
    }
}

/// A rule that a person takes back covers its action no more, and every other rule stays.
pub proof fn law_a_rule_is_taken_back(modes: &mut Modes, app: &str, action: &str, other: Covers)
    requires
        call_ensures(Modes::person_revoke_rule, (modes, app, action), ()),
    ensures
        !final(modes)@.rules.contains((app@, action@)),
        other != (app@, action@) ==> (final(modes)@.rules.contains(other) <==> old(modes)@.rules.contains(other)),
        final(modes)@.mode == old(modes)@.mode && final(modes)@.until == old(modes)@.until
            && final(modes)@.previous == old(modes)@.previous,
{
    let was = old(modes)@.rules;
    let f = others(app@, action@);
    seqs::lemma_filter_from(was, f);
    let now = was.filter(f);
    if now.contains(other) {
        let i = choose|i: int| 0 <= i < now.len() && now[i] == other;
        assert(was.contains(now[i]));
    }
    if now.contains((app@, action@)) {
        let i = choose|i: int| 0 <= i < now.len() && now[i] == (app@, action@);
        assert(f(now[i]));
    }
}

/// A bypass goes by its length in a few words, however they are written, and by no other.
pub proof fn law_what_a_bypass_goes_by(s: Seq<char>)
    ensures
        ({
            let t = text::lower(text::trim(s));
            &&& t == "15m"@ || t == "15min"@ || t == "15"@ ==> bypass_named(s) == Some(
                Bypass::Minutes15,
            )
            &&& t == "1h"@ || t == "hour"@ || t == "60m"@ ==> bypass_named(s) == Some(Bypass::Hour)
            &&& t == "restart"@ || t == "until_restart"@ || t == "session"@ ==> bypass_named(s)
                == Some(Bypass::UntilRestart)
            &&& bypass_named(s) is Some <==> t == "15m"@ || t == "15min"@ || t == "15"@ || t == "1h"@
                || t == "hour"@ || t == "60m"@ || t == "restart"@ || t == "until_restart"@ || t
                == "session"@
        }),
{
    reveal_strlit("15m");
    reveal_strlit("15min");
    reveal_strlit("15");
    reveal_strlit("1h");
    reveal_strlit("hour");
    reveal_strlit("60m");
    reveal_strlit("restart");
    reveal_strlit("until_restart");
    reveal_strlit("session");
    assert("15m"@[0] == '1' && "15min"@[0] == '1' && "15"@[0] == '1' && "1h"@[0] == '1'
        && "hour"@[0] == 'h' && "60m"@[0] == '6' && "restart"@[0] == 'r' && "until_restart"@[0]
        == 'u' && "session"@[0] == 's');
    assert("1h"@[1] == 'h' && "15m"@[1] == '5' && "15min"@[1] == '5' && "15"@[1] == '5');
}

/// A record of what ran unasked is told whole, and every rule by its app and its action.
pub proof fn law_what_is_told_of_a_record(e: Audited, rules: Seq<Covers>, i: int)
    requires
        0 <= i < rules.len(),
    ensures
        ({
            let t = audit_tree(e)->Object_0;
            &&& t.len() == 9
            &&& t[0] == ("at"@, Tree::Str(e.at))
            &&& t[1] == ("unix"@, Tree::Num(json::whole(e.unix)))
            &&& t[2] == ("mode"@, Tree::Str(e.mode))
            &&& t[3] == ("requester"@, Tree::Str(e.requester))
            &&& t[4] == ("app"@, Tree::Str(e.app))
            &&& t[5] == ("action"@, Tree::Str(e.action))
            &&& t[7] == ("grade"@, Tree::Str(e.grade))
            &&& t[8] == ("outcome"@, Tree::Str(e.outcome))
        }),
        rule_trees(rules).len() == rules.len(),
        rule_trees(rules)[i]->Object_0[0] == ("app"@, Tree::Str(rules[i].0)),
        rule_trees(rules)[i]->Object_0[1] == ("action"@, Tree::Str(rules[i].1)),
{
}

/// Every mode is told by its own label and its own meaning.
pub proof fn law_how_the_modes_are_told(a: Mode)
    ensures
        a == Mode::Plan ==> mode_label(a) == "Plan"@,
        a == Mode::Ask ==> mode_label(a) == "Ask"@,
        a == Mode::Auto ==> mode_label(a) == "Auto"@,
        a == Mode::Bypass ==> mode_label(a) == "Bypass"@,
        a == Mode::Plan ==> mode_meaning(a)
            == "Look, don't touch. It can read anything and change nothing."@,
        a == Mode::Ask ==> mode_meaning(a) == "It asks you before anything that could matter."@,
        a == Mode::Auto ==> mode_meaning(a)
            == "It gets on with things. You are still asked about the destructive ones."@,
        a == Mode::Bypass ==> mode_meaning(a)
            == "It does not ask. Everything the machine allows, it does."@,
{
}

/// Over the socket a mode is lowered by its word and by nothing else, a bypass never comes of it,
/// and no rule is touched.
pub proof fn law_the_socket_lowers_by_a_word(
    modes: &mut Modes,
    word: &str,
    now: u64,
    r: Result<Mode, String>,
)
    requires
        sound(old(modes)@),
        call_ensures(lower_from_socket, (modes, word, now), r),
    ensures
        r is Ok ==> mode_named(word@) == Some(r->Ok_0) && in_force(final(modes)@, now as int)
            == r->Ok_0,
        r is Err ==> in_force(final(modes)@, now as int) == in_force(old(modes)@, now as int),
        looseness(in_force(final(modes)@, now as int)) <= looseness(
            in_force(old(modes)@, now as int),
        ),
        mode_named(word@) == Some(Mode::Plan) ==> r is Ok,
        mode_named(word@) is None ==> r is Err,
        final(modes)@.rules == old(modes)@.rules,
{
}

/// The record keeps its last four hundred lines, and what is left of a bypass is told while it is in
/// force and has an end.
pub proof fn law_what_is_left_of_a_record_and_a_bypass(
    body: &str,
    kept: String,
    modes: Modes,
    now: u64,
    left: Option<u64>,
)
    requires
        call_ensures(trimmed_log, (body,), kept),
        call_ensures(Modes::bypass_left, (&modes, now), left),
    ensures
        text::lines(body@).len() <= 400 ==> kept@ == text::join(text::lines(body@), "\n"@) + "\n"@,
        text::lines(body@).len() > 400 ==> kept@ == text::join(
            text::lines(body@).skip(text::lines(body@).len() - 400),
            "\n"@,
        ) + "\n"@,
        left is Some <==> in_force(modes@, now as int) == Mode::Bypass && modes@.until is Some,
        left is Some && modes@.until->0 >= now ==> left->0 == modes@.until->0 - now,
{
}

/// What is told of the setting is the mode in force, the one that a bypass falls back to, and how
/// long it lasts: its whole seconds where it has an end, and that it has none otherwise.
pub proof fn law_what_is_told_of_the_setting(s: Setting, ceiling: Seq<char>, now: int, left: int)
    requires
        sound(s),
        0 < left <= u64::MAX,
        s.until is Some ==> s.until == Some(now + left),
    ensures
        ({
            let e = picture(s, ceiling, now)->Object_0;
            &&& e[0] == ("mode"@, Tree::Str(mode_word(s.mode)))
            &&& e[1] == ("means"@, Tree::Str(mode_meaning(s.mode)))
            &&& s.mode == Mode::Bypass ==> e[2] == ("previous"@, Tree::Str(mode_word(s.previous)))
            &&& s.mode != Mode::Bypass ==> e[2] == ("previous"@, Tree::Str(mode_word(s.mode)))
            &&& e[3] == ("ceiling"@, Tree::Str(ceiling))
            &&& s.mode != Mode::Bypass ==> e[4].1 == Tree::Null && e[5].1 == Tree::Bool(false)
            &&& s.mode == Mode::Bypass && s.until is None ==> e[4].1 == Tree::Null && e[5].1
                == Tree::Bool(true)
            &&& s.mode == Mode::Bypass && s.until is Some ==> e[4].1 == Tree::Num(
                json::whole((left / 1_000_000_000) as u64),
            ) && e[5].1 == Tree::Bool(false)
            &&& e[6].1->Array_0.len() == s.rules.len()
        }),
{
}

} // verus!
