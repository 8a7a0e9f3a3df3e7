//! The screen lock's PIN: where it is kept, and what opens the screen.
//!
//! The PIN guards the shell's own canvas and nothing else. Reading and writing the file is the
//! caller's.
use crate::text;
use crate::text::{chars_of, same, trimmed};
use vstd::prelude::*;

verus! {

/// After how many idle seconds the screen locks.
pub const DEFAULT_IDLE_LOCK_SECS: u64 = 300;

/// The PIN of a machine that has none yet.
pub const DEFAULT_PIN: &'static str = "0000";

/// Who may read the PIN's file: its owner.
pub const PIN_FILE_MODE: u32 = 0o600;

/// Where the PIN is kept under a home, which is root's where none is known.
pub open spec fn pin_file(home: Option<Seq<char>>) -> Seq<char> {
    let home = match home {
        Some(h) => h,
        None => "/root"@,
    };
    if home.len() == 0 || home.last() == '/' {
        home + ".yantrik/lock_pin"@
    } else {
        home + "/"@ + ".yantrik/lock_pin"@
    }
}

/// Where the PIN is kept.
pub fn pin_path(home: Option<&str>) -> (r: String)
    ensures
        r@ == pin_file(
            match home {
                Some(h) => Some(h@),
                None => None,
            },
        ),
{
    let home = match home {
        Some(h) => h,
        None => "/root",
    };
    let v = chars_of(home);
    let mut out = home.to_owned();
    if v.len() > 0 && v[v.len() - 1] != '/' {
        out.append("/");
    }
    out.append(".yantrik/lock_pin");
    out
}

/// What came of reading the PIN's file.
pub enum Stored {
    Held(String),
    Missing,
    Unreadable,
}

/// What to do about a PIN somebody typed.
#[derive(Clone, Copy, PartialEq, Eq, Debug, Structural)]
pub enum Check {
    /// The screen opens, or it does not.
    Answer(bool),
    /// Put the default back and look once more.
    Restore,
}

/// Whether what was typed is what is stored, but for the space around either.
pub open spec fn matches_pin(stored: Seq<char>, input: Seq<char>) -> bool {
    text::trim(stored) == text::trim(input)
}

pub open spec fn opens(stored: Stored, input: Seq<char>) -> bool {
    stored matches Stored::Held(pin) && matches_pin(pin@, input)
}

fn is_pin(stored: &str, input: &str) -> (r: bool)
    ensures
        r == matches_pin(stored@, input@),
{
    same(trimmed(stored).as_str(), trimmed(input).as_str())
}

/// Check what was typed against what is stored. A file that is not there has an obvious right
/// answer; one that cannot be read does not, and does not open the screen.
pub fn check_pin(stored: &Stored, input: &str) -> (r: Check)
    ensures
        r == match *stored {
            Stored::Held(pin) => Check::Answer(matches_pin(pin@, input@)),
            Stored::Missing => Check::Restore,
            Stored::Unreadable => Check::Answer(false),
        },
{
    match stored {
        Stored::Held(pin) => Check::Answer(is_pin(pin.as_str(), input)),
        Stored::Missing => Check::Restore,
        Stored::Unreadable => Check::Answer(false),
    }
}

/// Check what was typed once the default has been put back.
pub fn check_restored(stored: &Stored, input: &str) -> (r: bool)
    ensures
        r == opens(*stored, input@),
{
    match stored {
        Stored::Held(pin) => is_pin(pin.as_str(), input),
        Stored::Missing => false,
        Stored::Unreadable => false,
    }
}

/// Not to know the PIN never opens the screen: where the first reading or the one behind it holds
/// none, nothing that is typed does.
pub proof fn law_not_knowing_does_not_open(stored: Stored, input: Seq<char>)
    requires
        !(stored is Held),
    ensures
        !opens(stored, input),
{
}

/// Space around a PIN is a typo, not a different PIN.
pub proof fn law_space_around_a_pin_does_not_count(pin: Seq<char>, input: Seq<char>)
    ensures
        matches_pin(text::trim(pin), input) == matches_pin(pin, input),
        matches_pin(pin, text::trim(input)) == matches_pin(pin, input),
{
    text::lemma_trim_twice(pin);
    text::lemma_trim_twice(input);
}

/// The PIN that is kept opens, and no other does: two that differ in anything but the white space
/// around them are two.
pub proof fn law_only_the_pin_opens(stored: Stored, pin: Seq<char>, input: Seq<char>)
    requires
        stored matches Stored::Held(p) && p@ == pin,
        text::neat(pin),
        text::neat(input),
    ensures
        opens(stored, input) <==> input == pin,
{
    text::lemma_neat(pin);
    text::lemma_neat(input);
}

/// The PIN is kept in the person's own folder, and in that of root where nobody's is known.
pub proof fn law_where_the_pin_is_kept(home: Seq<char>)
    ensures
        home.len() > 0 && home.last() != '/' ==> pin_file(Some(home)) == home
            + "/.yantrik/lock_pin"@,
        home.len() > 0 && home.last() == '/' ==> pin_file(Some(home)) == home
            + ".yantrik/lock_pin"@,
        pin_file(None) == "/root/.yantrik/lock_pin"@,
{
    reveal_strlit("/");
    reveal_strlit("/root");
    reveal_strlit(".yantrik/lock_pin");
    reveal_strlit("/.yantrik/lock_pin");
    reveal_strlit("/root/.yantrik/lock_pin");
    assert("/"@ + ".yantrik/lock_pin"@ =~= "/.yantrik/lock_pin"@);
    assert(home + "/"@ + ".yantrik/lock_pin"@ =~= home + "/.yantrik/lock_pin"@);
    assert("/root"@ + "/"@ + ".yantrik/lock_pin"@ =~= "/root/.yantrik/lock_pin"@);
}

/// What is typed opens where it is the PIN that is kept; where none is kept the usual one is put
/// back first, and where it cannot be read nothing opens.
pub proof fn law_what_opens_the_screen(stored: Stored, input: &str, r: Check)
    requires
        call_ensures(check_pin, (&stored, input), r),
    ensures
        stored is Missing <==> r is Restore,
        stored is Unreadable ==> r == Check::Answer(false),
        stored matches Stored::Held(pin) ==> (r == Check::Answer(true) <==> text::trim(pin@)
            == text::trim(input@)),
{
}

} // verus!
