//! Bounded, conflict-aware publication of private YAML preferences.
//!
//! A preference file is read once. A save is refused where the file on disk is no longer what was
//! read, where either side is not YAML or too large, or where the file must not be replaced; what
//! is written keeps every entry that the change does not name. The reading and writing are the
//! caller's.
use crate::seqs;
use crate::text;
use crate::text::{has, same, words_of};
use vstd::prelude::*;

verus! {

/// The most bytes a preference file may have.
pub const LIMIT: usize = 262_144;

/// How many bytes a text takes.
pub open spec fn byte_len(s: Seq<char>) -> usize {
    vstd::utf8::encode_utf8(s).len() as usize
}

pub open spec fn too_large() -> Seq<char> {
    "Preferences exceed 256 KiB."@
}

pub open spec fn not_regular() -> Seq<char> {
    "Preferences must be a regular UTF-8 file of at most 256 KiB."@
}

pub open spec fn changed_on_disk() -> Seq<char> {
    "Preferences changed on disk. Changes in this session were not saved; restart the shell to reload the file."@
}

pub open spec fn not_yaml() -> Seq<char> {
    "Existing preferences contain invalid YAML and have been preserved."@
}

pub open spec fn not_serializable() -> Seq<char> {
    "Cannot serialize preferences."@
}

pub open spec fn not_replaceable() -> Seq<char> {
    "Preferences are linked or read-only; the original file was preserved."@
}

pub open spec fn changed_while_saving() -> Seq<char> {
    "Preferences changed while saving; the external version was preserved."@
}

// ── YAML ────────────────────────────────────────────────────────────

/// A mapping of `serde_yaml`.
#[verifier::external_type_specification]
#[verifier::external_body]
pub struct ExMapping(serde_yaml::Mapping);

/// A value of `serde_yaml`.
#[verifier::external_type_specification]
#[verifier::external_body]
pub struct ExYamlValue(serde_yaml::Value);

/// Why `serde_yaml` could not do what was asked of it.
#[verifier::external_type_specification]
#[verifier::external_body]
pub struct ExYamlError(serde_yaml::Error);

/// The mapping `serde_yaml` reads out of a text, where it is one.
pub uninterp spec fn mapping_in(text: Seq<char>) -> Option<serde_yaml::Mapping>;

/// The text `serde_yaml` writes a mapping as, where it can.
pub uninterp spec fn mapping_text(m: serde_yaml::Mapping) -> Option<Seq<char>>;

/// What stands under a text key of a mapping.
pub uninterp spec fn under(m: serde_yaml::Mapping, key: Seq<char>) -> Option<serde_yaml::Value>;

/// A mapping of `serde_yaml` with another one's entries inserted into it.
pub uninterp spec fn extended(
    m: serde_yaml::Mapping,
    by: serde_yaml::Mapping,
) -> serde_yaml::Mapping;

/// `serde_yaml::from_str` into a mapping: what it reads, and whether it can, depends on the text
/// alone.
#[verifier::external_body]
fn read_mapping(text: &str) -> (r: Result<serde_yaml::Mapping, serde_yaml::Error>)
    ensures
        r is Ok <==> mapping_in(text@) is Some,
        r matches Ok(m) ==> mapping_in(text@) == Some(m),
{
    serde_yaml::from_str(text)
}

/// `Mapping::extend` of `serde_yaml`: each entry of the other mapping is inserted, over the one
/// under the same key where there is one, so that a text key stands for what it stands for in the
/// other mapping, and for what it stood for before where that one does not have it.
#[verifier::external_body]
fn extend_mapping(m: &mut serde_yaml::Mapping, by: serde_yaml::Mapping)
    ensures
        *final(m) == extended(*old(m), by),
        forall|key: Seq<char>|
            #[trigger] under(*final(m), key) == if under(by, key) is Some {
                under(by, key)
            } else {
                under(*old(m), key)
            },
{
    m.extend(by)
}

/// `serde_yaml::to_string` on a mapping: the text, and whether there is one, depends on the
/// mapping alone.
#[verifier::external_body]
fn write_mapping(m: &serde_yaml::Mapping) -> (r: Result<String, serde_yaml::Error>)
    ensures
        r is Ok <==> mapping_text(*m) is Some,
        r matches Ok(text) ==> mapping_text(*m) == Some(text@),
{
    serde_yaml::to_string(m)
}

// ── Reading ─────────────────────────────────────────────────────────

/// Whether what is at a path may be read as preferences: a regular file within the bound.
pub fn may_read(is_file: bool, bytes: u64) -> (r: Result<(), String>)
    ensures
        r is Ok <==> is_file && bytes <= LIMIT,
        r matches Err(why) ==> why@ == not_regular(),
{
    if !is_file || bytes > LIMIT as u64 {
        return Err("Preferences must be a regular UTF-8 file of at most 256 KiB.".to_owned());
    }
    Ok(())
}

/// Whether a text that was read is within the bound.
pub fn may_hold(text: &str) -> (r: Result<(), String>)
    ensures
        r is Ok <==> byte_len(text@) <= LIMIT,
        r matches Err(why) ==> why@ == too_large(),
{
    if text.len() > LIMIT {
        return Err("Preferences exceed 256 KiB.".to_owned());
    }
    Ok(())
}

// ── Saving ──────────────────────────────────────────────────────────

/// What is at the path, as far as replacing it goes.
#[derive(Clone, Copy)]
pub struct OnDisk {
    pub is_file: bool,
    pub links: u64,
    /// Whether anybody may write it.
    pub writable: bool,
}

/// How the staged text becomes the file.
#[derive(Clone, Copy, PartialEq, Eq, Debug, Structural)]
pub enum Publish {
    /// Over the file that is there.
    Rename,
    /// Where there was none, without replacing one that has come meanwhile.
    Link,
}

/// One preference file, as it was when it was last read or written.
#[derive(Debug)]
pub struct PreferenceFile {
    path: String,
    baseline: Option<String>,
}

/// What a [`PreferenceFile`] knows.
pub struct Known {
    pub path: Seq<char>,
    pub baseline: Option<Seq<char>>,
}

impl View for PreferenceFile {
    type V = Known;

    closed spec fn view(&self) -> Known {
        Known { path: self.path@, baseline: text::maybe(self.baseline) }
    }
}

/// The entries there are with the changes over them. Where there is no file yet, they are the
/// changes.
pub open spec fn merged(
    current: Option<Seq<char>>,
    changes: serde_yaml::Mapping,
) -> serde_yaml::Mapping {
    match current {
        Some(c) => extended(mapping_in(c)->0, changes),
        None => changes,
    }
}

/// What a key stands for before anything is changed.
pub open spec fn under_before(current: Option<Seq<char>>, key: Seq<char>) -> Option<
    serde_yaml::Value,
> {
    match current {
        Some(c) => under(mapping_in(c)->0, key),
        None => None,
    }
}

/// What a save is to write, or why it is refused. The conditions are looked at in this order: the
/// size of the change, whether the file could be read and is what was last read, whether both
/// sides are YAML, the size of what would be written, and whether the file may be replaced.
pub open spec fn to_write(
    k: Known,
    yaml: Seq<char>,
    current: Result<Option<Seq<char>>, Seq<char>>,
    disk: Option<OnDisk>,
) -> Result<Seq<char>, Seq<char>> {
    if byte_len(yaml) > LIMIT {
        Err(too_large())
    } else {
        match current {
            Err(why) => Err(why),
            Ok(now) => if now != k.baseline {
                Err(changed_on_disk())
            } else if now is Some && mapping_in(now->0) is None {
                Err(not_yaml())
            } else if mapping_in(yaml) is None {
                Err(not_serializable())
            } else {
                match mapping_text(merged(now, mapping_in(yaml)->0)) {
                    None => Err(not_serializable()),
                    Some(text) => if byte_len(text) > LIMIT {
                        Err(too_large())
                    } else if disk matches Some(d) && (!d.is_file || d.links != 1 || !d.writable) {
                        Err(not_replaceable())
                    } else {
                        Ok(text)
                    },
                }
            },
        }
    }
}

pub open spec fn read_of(r: Result<Option<String>, String>) -> Result<Option<Seq<char>>, Seq<char>> {
    match r {
        Ok(t) => Ok(text::maybe(t)),
        Err(why) => Err(why@),
    }
}

fn same_text(a: &Option<String>, b: &Option<String>) -> (r: bool)
    ensures
        r == (text::maybe(*a) == text::maybe(*b)),
{
    match (a, b) {
        (Some(x), Some(y)) => same(x.as_str(), y.as_str()),
        (None, None) => true,
        _ => false,
    }
}

impl PreferenceFile {
    /// The file at a path, as reading it came out.
    pub fn open(path: String, read: Result<Option<String>, String>) -> (r: Result<Self, String>)
        ensures
            match read_of(read) {
                Ok(text) => r matches Ok(f) && f@ == (Known { path: path@, baseline: text }),
                Err(why) => r matches Err(said) && said@ == why,
            },
    {
        match read {
            Ok(baseline) => Ok(PreferenceFile { path, baseline }),
            Err(why) => Err(why),
        }
    }

    /// What the file held when it was last read or written.
    pub fn content(&self) -> (r: Option<&str>)
        ensures
            (r matches Some(t) ==> self@.baseline == Some(t@)),
            r is None ==> self@.baseline is None,
    {
        match &self.baseline {
            Some(t) => Some(t.as_str()),
            None => None,
        }
    }

    /// Where the file is.
    pub fn path(&self) -> (r: &str)
        ensures
            r@ == self@.path,
    {
        self.path.as_str()
    }

    /// What a save is to write, or why it is refused. `current` is what reading the file came to
    /// just now, `disk` what is at its path, where anything is. What is written is the text of a
    /// mapping in which every key that the change names stands for what the change says, and every
    /// other key for what it stood for before.
    pub fn save(
        &self,
        yaml: &str,
        current: Result<Option<String>, String>,
        disk: Option<OnDisk>,
    ) -> (r: Result<String, String>)
        ensures
            match to_write(self@, yaml@, read_of(current), disk) {
                Ok(text) => r matches Ok(t) && t@ == text,
                Err(why) => r matches Err(said) && said@ == why,
            },
            r is Ok ==> {
                let changes = mapping_in(yaml@)->0;
                let before = self@.baseline;
                forall|key: Seq<char>|
                    #[trigger] under(merged(before, changes), key) == if under(changes, key) is Some {
                        under(changes, key)
                    } else {
                        under_before(before, key)
                    }
            },
    {
        if yaml.len() > LIMIT {
            return Err("Preferences exceed 256 KiB.".to_owned());
        }
        let now = match current {
            Ok(now) => now,
            Err(why) => {
                return Err(why);
            },
        };
        if !same_text(&now, &self.baseline) {
            return Err(
                "Preferences changed on disk. Changes in this session were not saved; restart the shell to reload the file.".to_owned(),
            );
        }
        let existing = match &now {
            Some(text) => match read_mapping(text.as_str()) {
                Ok(m) => Some(m),
                Err(_) => {
                    return Err(
                        "Existing preferences contain invalid YAML and have been preserved.".to_owned(),
                    );
                },
            },
            None => None,
        };
        let changes = match read_mapping(yaml) {
            Ok(m) => m,
            Err(_) => {
                return Err("Cannot serialize preferences.".to_owned());
            },
        };
        let ghost wanted = merged(text::maybe(now), changes);
        let entries = match existing {
            Some(mut m) => {
                extend_mapping(&mut m, changes);
                m
            },
            None => changes,
        };
        assert(entries == wanted);
        let text = match write_mapping(&entries) {
            Ok(text) => text,
            Err(_) => {
                return Err("Cannot serialize preferences.".to_owned());
            },
        };
        if text.as_str().len() > LIMIT {
            return Err("Preferences exceed 256 KiB.".to_owned());
        }
        if let Some(d) = disk {
            if !d.is_file || d.links != 1 || !d.writable {
                return Err(
                    "Preferences are linked or read-only; the original file was preserved.".to_owned(),
                );
            }
        }
        Ok(text)
    }

    /// How a staged text becomes the file, or why it must not: the file is looked at once more,
    /// immediately before.
    pub fn publish(&self, current: Result<Option<String>, String>) -> (r: Result<Publish, String>)
        ensures
            match read_of(current) {
                Err(why) => r matches Err(said) && said@ == why,
                Ok(now) => if now != self@.baseline {
                    r matches Err(said) && said@ == changed_while_saving()
                } else {
                    r == Ok::<Publish, String>(
                        if self@.baseline is Some {
                            Publish::Rename
                        } else {
                            Publish::Link
                        },
                    )
                },
            },
    {
        match current {
            Err(why) => Err(why),
            Ok(now) => {
                if !same_text(&now, &self.baseline) {
                    return Err(
                        "Preferences changed while saving; the external version was preserved.".to_owned(),
                    );
                }
                if self.baseline.is_some() {
                    Ok(Publish::Rename)
                } else {
                    Ok(Publish::Link)
                }
            },
        }
    }

    /// The staged text has become the file.
    pub fn published(&mut self, text: String)
        ensures
            final(self)@ == (Known { path: old(self)@.path, baseline: Some(text@) }),
    {
        self.baseline = Some(text);
    }
}

// ── Every preference file ───────────────────────────────────────────

/// The preference files that were read, each once.
pub struct Preferences {
    files: Vec<PreferenceFile>,
}

spec fn views(s: Seq<PreferenceFile>) -> Seq<Known> {
    Seq::new(s.len(), |i: int| s[i]@)
}

impl View for Preferences {
    type V = Seq<Known>;

    closed spec fn view(&self) -> Seq<Known> {
        views(self.files@)
    }
}

pub open spec fn at_path(path: Seq<char>) -> spec_fn(Known) -> bool {
    |k: Known| k.path == path
}

/// No path is known twice.
pub open spec fn once_each(s: Seq<Known>) -> bool {
    forall|i: int, j: int|
        0 <= i < j < s.len() ==> (#[trigger] s[i]).path != (#[trigger] s[j]).path
}

impl Preferences {
    pub fn new() -> (r: Preferences)
        ensures
            r@.len() == 0,
            once_each(r@),
    {
        Preferences { files: Vec::new() }
    }

    fn find(&self, path: &str) -> (r: usize)
        ensures
            r == seqs::first(self@, at_path(path@)),
    {
        let mut i: usize = 0;
        let ghost f = at_path(path@);
        while i < self.files.len()
            invariant
                i <= self.files@.len(),
                f == at_path(path@),
                seqs::first(self@, f) == seqs::first_from(self@, f, i as int),
            decreases self.files@.len() - i,
        {
            assert(self@[i as int] == self.files@[i as int]@);
            if same(self.files[i].path.as_str(), path) {
                return i;
            }
            i += 1;
        }
        i
    }

    /// Whether a path has been read already.
    pub fn knows(&self, path: &str) -> (r: bool)
        ensures
            r == (seqs::first(self@, at_path(path@)) < self@.len()),
    {
        self.find(path) < self.files.len()
    }

    /// What a preference file held when it was first read. `read` is what reading it comes to
    /// now, which counts only where it was not read before.
    pub fn load(&mut self, path: &str, read: Result<Option<String>, String>) -> (r: Result<
        Option<String>,
        String,
    >)
        requires
            once_each(old(self)@),
        ensures
            once_each(final(self)@),
            ({
                let i = seqs::first(old(self)@, at_path(path@));
                if i < old(self)@.len() {
                    &&& final(self)@ == old(self)@
                    &&& r matches Ok(t) && text::maybe(t) == old(self)@[i].baseline
                } else {
                    match read_of(read) {
                        Ok(text) => {
                            &&& final(self)@ == old(self)@.push(
                                Known { path: path@, baseline: text },
                            )
                            &&& r matches Ok(t) && text::maybe(t) == text
                        },
                        Err(why) => {
                            &&& final(self)@ == old(self)@
                            &&& r matches Err(said) && said@ == why
                        },
                    }
                }
            }),
    {
        let i = self.find(path);
        if i < self.files.len() {
            assert(self@[i as int] == self.files@[i as int]@);
            return Ok(self.files[i].baseline.clone());
        }
        match PreferenceFile::open(path.to_owned(), read) {
            Ok(file) => {
                let ghost was = self@;
                let ghost k = file@;
                let held = file.baseline.clone();
                self.files.push(file);
                proof {
                    assert(self@ =~= was.push(k));
                    seqs::lemma_first(was, at_path(path@));
                    assert forall|a: int, b: int| 0 <= a < b < self@.len() implies (
                    #[trigger] self@[a]).path != (#[trigger] self@[b]).path by {
                        if b == was.len() {
                            assert(!at_path(path@)(was[a]));
                        }
                    }
                }
                Ok(held)
            },
            Err(why) => Err(why),
        }
    }

    /// The file at a path that has been read.
    pub fn file(&self, path: &str) -> (r: Option<&PreferenceFile>)
        ensures
            ({
                let i = seqs::first(self@, at_path(path@));
                match r {
                    Some(f) => i < self@.len() && f@ == self@[i],
                    None => i >= self@.len(),
                }
            }),
    {
        let i = self.find(path);
        if i < self.files.len() {
            assert(self@[i as int] == self.files@[i as int]@);
            Some(&self.files[i])
        } else {
            None
        }
    }

    /// The text has become the file at a path that has been read.
    pub fn published(&mut self, path: &str, text: String)
        requires
            once_each(old(self)@),
            seqs::first(old(self)@, at_path(path@)) < old(self)@.len(),
        ensures
            once_each(final(self)@),
            ({
                let i = seqs::first(old(self)@, at_path(path@));
                final(self)@ == old(self)@.update(
                    i,
                    Known { path: old(self)@[i].path, baseline: Some(text@) },
                )
            }),
    {
        let i = self.find(path);
        let ghost was = self@;
        let ghost files = self.files@;
        proof {
            seqs::lemma_first(was, at_path(path@));
            assert(was[i as int] == files[i as int]@);
        }
        let mut file = self.files.remove(i);
        file.published(text);
        let ghost k = file@;
        self.files.insert(i, file);
        proof {
            assert(self.files@ =~= files.update(i as int, file));
            assert(self@ =~= was.update(i as int, k));
            assert forall|a: int, b: int| 0 <= a < b < self@.len() implies (
            #[trigger] self@[a]).path != (#[trigger] self@[b]).path by {
                assert(was[a].path != was[b].path);
            }
        }
    }
}

// ── Searching the settings ──────────────────────────────────────────

/// What a person may be looking for on a settings page, page by page.
pub open spec fn topics(page: int) -> Seq<char> {
    if page == 0 {
        "appearance theme dark light accent color colour wallpaper background display"@
    } else if page == 1 {
        "ai intelligence provider model api endpoint routing budget usage privacy local cloud"@
    } else if page == 2 {
        "desktop workspace overview agent shortcuts keyboard windows"@
    } else if page == 3 {
        "network wifi wi-fi wireless ethernet wired ip address connection"@
    } else if page == 4 {
        "accounts integrations google spotify facebook instagram connect sync"@
    } else if page == 5 {
        "privacy security incognito memory retention lock idle timeout notifications disturb dnd"@
    } else if page == 6 {
        "system about version devices packages updates monitor notifications"@
    } else if page == 7 {
        "skills extensions capabilities store installed"@
    } else {
        "harnesses minds assistant companion agent hermes built in"@
    }
}

pub const PAGES: i32 = 9;

fn topics_of(page: i32) -> (r: &'static str)
    requires
        0 <= page < PAGES,
    ensures
        r@ == topics(page as int),
{
    if page == 0 {
        "appearance theme dark light accent color colour wallpaper background display"
    } else if page == 1 {
        "ai intelligence provider model api endpoint routing budget usage privacy local cloud"
    } else if page == 2 {
        "desktop workspace overview agent shortcuts keyboard windows"
    } else if page == 3 {
        "network wifi wi-fi wireless ethernet wired ip address connection"
    } else if page == 4 {
        "accounts integrations google spotify facebook instagram connect sync"
    } else if page == 5 {
        "privacy security incognito memory retention lock idle timeout notifications disturb dnd"
    } else if page == 6 {
        "system about version devices packages updates monitor notifications"
    } else if page == 7 {
        "skills extensions capabilities store installed"
    } else {
        "harnesses minds assistant companion agent hermes built in"
    }
}

/// Whether a page has every word that is looked for.
pub open spec fn answers(page: int, words: Seq<Seq<char>>) -> bool {
    forall|i: int|
        0 <= i < words.len() ==> text::contains(topics(page), #[trigger] words[i])
}

/// The pages before `n` that have every word, in order.
pub open spec fn pages_for(words: Seq<Seq<char>>, n: int) -> Seq<i32>
    decreases n,
{
    if n <= 0 {
        Seq::empty()
    } else if answers(n - 1, words) {
        pages_for(words, n - 1).push((n - 1) as i32)
    } else {
        pages_for(words, n - 1)
    }
}

/// The pages that have every word of a query that is in small letters.
pub fn categories_for(query: &str) -> (r: Vec<i32>)
    ensures
        r@ == pages_for(text::words(query@), PAGES as int),
{
    let words = words_of(query);
    let ghost ws = text::words(query@);
    let mut out: Vec<i32> = Vec::new();
    let mut page: i32 = 0;
    while page < PAGES
        invariant
            0 <= page <= PAGES,
            text::strs(words@) == ws,
            out@ == pages_for(ws, page as int),
        decreases PAGES - page,
    {
        let mut all = true;
        let mut i: usize = 0;
        while i < words.len()
            invariant
                0 <= page < PAGES,
                i <= words@.len(),
                text::strs(words@) == ws,
                all == forall|k: int|
                    0 <= k < i ==> text::contains(topics(page as int), #[trigger] ws[k]),
            decreases words@.len() - i,
        {
            assert(text::strs(words@)[i as int] == words@[i as int]@);
            let found = has(topics_of(page), words[i].as_str());
            if !found {
                all = false;
                assert(!text::contains(topics(page as int), ws[i as int]));
            }
            i += 1;
        }
        assert(all == answers(page as int, ws));
        if all {
            out.push(page);
        }
        page += 1;
    }
    out
}

/// The pages that a query in ASCII finds, whatever its letters.
pub open spec fn found_by(query: Seq<char>) -> Seq<i32> {
    pages_for(text::words(text::lower(query)), PAGES as int)
}

/// Search the controls a person is looking for, not only category names.
pub fn search_categories(query: &str) -> (r: Vec<i32>)
    ensures
        r@ == pages_for(text::words(text::small(query@)), PAGES as int),
        text::ascii(query@) ==> r@ == found_by(query@),
{
    categories_for(text::to_small(query).as_str())
}

// ── Laws ────────────────────────────────────────────────────────────

/// Nothing is written over a file that is not what was last read.
pub proof fn law_a_changed_file_is_never_written_over(
    k: Known,
    yaml: Seq<char>,
    current: Result<Option<Seq<char>>, Seq<char>>,
    disk: Option<OnDisk>,
)
    requires
        to_write(k, yaml, current, disk) is Ok,
    ensures
        current == Ok::<Option<Seq<char>>, Seq<char>>(k.baseline),
{
}

/// What is written is within the bound.
pub proof fn law_what_is_written_is_bounded(
    k: Known,
    yaml: Seq<char>,
    current: Result<Option<Seq<char>>, Seq<char>>,
    disk: Option<OnDisk>,
)
    requires
        to_write(k, yaml, current, disk) is Ok,
    ensures
        byte_len(to_write(k, yaml, current, disk)->Ok_0) <= LIMIT,
{
}

/// What a search finds are pages, each once and in order, and exactly those that have every word.
pub proof fn law_a_search_finds_every_page_that_answers(words: Seq<Seq<char>>, n: int)
    requires
        0 <= n <= PAGES,
    ensures
        forall|i: int|
            0 <= i < pages_for(words, n).len() ==> 0 <= #[trigger] pages_for(words, n)[i] < n
                && answers(pages_for(words, n)[i] as int, words),
        forall|i: int, j: int|
            0 <= i < j < pages_for(words, n).len() ==> #[trigger] pages_for(words, n)[i]
                < #[trigger] pages_for(words, n)[j],
        forall|p: int|
            0 <= p < n && #[trigger] answers(p, words) ==> pages_for(words, n).contains(p as i32),
    decreases n,
{
    if n > 0 {
        law_a_search_finds_every_page_that_answers(words, n - 1);
        let before = pages_for(words, n - 1);
        let now = pages_for(words, n);
        assert forall|p: int| 0 <= p < n && #[trigger] answers(p, words) implies now.contains(
            p as i32,
        ) by {
            if p < n - 1 {
                assert(before.contains(p as i32));
                let k = choose|k: int| 0 <= k < before.len() && before[k] == p as i32;
                assert(now[k] == p as i32);
            } else {
                assert(now[now.len() - 1] == p as i32);
            }
        }
    }
}

/// Nothing to look for finds every page: no words find all the pages there are, and an empty query
/// has no words.
pub proof fn law_nothing_to_look_for_finds_every_page(n: int)
    requires
        0 <= n <= PAGES,
    ensures
        pages_for(Seq::empty(), n) == Seq::new(n as nat, |i: int| i as i32),
        n == PAGES ==> found_by(Seq::empty()) == pages_for(Seq::empty(), n),
    decreases n,
{
    assert(text::lower(Seq::empty()) =~= Seq::<char>::empty());
    assert(text::words(Seq::empty()) =~= Seq::<Seq<char>>::empty());
    if n > 0 {
        law_nothing_to_look_for_finds_every_page(n - 1);
        assert(answers(n - 1, Seq::empty()));
        assert(pages_for(Seq::empty(), n) =~= Seq::new(n as nat, |i: int| i as i32));
    }
}

proof fn lemma_both_answer(a: Seq<Seq<char>>, b: Seq<Seq<char>>, page: int)
    ensures
        answers(page, a + b) <==> answers(page, a) && answers(page, b),
{
    let both = a + b;
    if answers(page, both) {
        assert forall|i: int| 0 <= i < a.len() implies text::contains(
            topics(page),
            #[trigger] a[i],
        ) by {
            assert(both[i] == a[i]);
        }
        assert forall|i: int| 0 <= i < b.len() implies text::contains(
            topics(page),
            #[trigger] b[i],
        ) by {
            assert(both[i + a.len()] == b[i]);
        }
    }
    if answers(page, a) && answers(page, b) {
        assert forall|i: int| 0 <= i < both.len() implies text::contains(
            topics(page),
            #[trigger] both[i],
        ) by {
            if i < a.len() {
                assert(both[i] == a[i]);
            } else {
                assert(both[i] == b[i - a.len()]);
            }
        }
    }
}

/// A query of two parts, in small letters, finds exactly the pages that both parts find, in order.
pub proof fn law_two_parts_find_what_both_find(a: Seq<char>, b: Seq<char>, n: int)
    requires
        0 <= n <= PAGES,
    ensures
        text::words(a + seq![' '] + b) == text::words(a) + text::words(b),
        pages_for(text::words(a + seq![' '] + b), n) == pages_for(text::words(a), n).filter(
            |p: i32| pages_for(text::words(b), n).contains(p),
        ),
{
    let spaced = seq![' '] + b;
    assert(a + seq![' '] + b =~= a + spaced);
    text::lemma_words_add(a, spaced);
    text::lemma_words_after_space(b);
    let (x, y) = (text::words(a), text::words(b));
    law_a_search_finds_every_page_that_answers(y, n);
    let f = |p: i32| pages_for(y, n).contains(p);
    assert forall|p: int| 0 <= p < n implies #[trigger] f(p as i32) == answers(p, y) by {
        if f(p as i32) {
            let k = choose|k: int|
                0 <= k < pages_for(y, n).len() && pages_for(y, n)[k] == p as i32;
            assert(answers(pages_for(y, n)[k] as int, y));
        }
    }
    lemma_both_parts(x, y, n, f);
}

proof fn lemma_both_parts(x: Seq<Seq<char>>, y: Seq<Seq<char>>, n: int, f: spec_fn(i32) -> bool)
    requires
        0 <= n <= PAGES,
        forall|p: int| 0 <= p < n ==> #[trigger] f(p as i32) == answers(p, y),
    ensures
        pages_for(x + y, n) == pages_for(x, n).filter(f),
    decreases n,
{
    reveal(Seq::filter);
    if n > 0 {
        let page = n - 1;
        lemma_both_parts(x, y, page, f);
        lemma_both_answer(x, y, page);
        assert(f(page as i32) == answers(page, y));
        let before = pages_for(x, page);
        if answers(page, x) {
            let now = pages_for(x, n);
            assert(now.drop_last() =~= before);
            assert(now.last() == page as i32);
        }
    }
}

/// The letter case of a query in ASCII does not matter: two that differ in nothing else find the
/// same pages, and a query of two parts finds exactly the pages that both parts find.
pub proof fn law_letter_case_does_not_matter(a: Seq<char>, b: Seq<char>)
    ensures
        text::lower(a) == text::lower(b) ==> found_by(a) == found_by(b),
        found_by(text::lower(a)) == found_by(a),
        found_by(a + seq![' '] + b) == found_by(a).filter(|p: i32| found_by(b).contains(p)),
{
    assert(text::lower(text::lower(a)) =~= text::lower(a)) by {
        assert forall|i: int| 0 <= i < a.len() implies text::lower(text::lower(a))[i]
            == text::lower(a)[i] by {
            text::lemma_lower_char_twice(a[i]);
        }
    }
    assert(text::lower(a + seq![' '] + b) =~= text::lower(a) + seq![' '] + text::lower(b));
    law_two_parts_find_what_both_find(text::lower(a), text::lower(b), PAGES as int);
}

/// What can be saved, is: where the file is as it was last seen, both it and the change can be
/// read, and what comes of the two fits and may be put in its place, that is what is written. A file
/// that is not there is written anew.
pub proof fn law_what_can_be_saved_is(k: Known, yaml: Seq<char>, disk: Option<OnDisk>, text: Seq<char>)
    requires
        byte_len(yaml) <= 262_144,
        byte_len(text) <= 262_144,
        mapping_in(yaml) is Some,
        k.baseline matches Some(was) ==> mapping_in(was) is Some && mapping_text(
            extended(mapping_in(was)->0, mapping_in(yaml)->0),
        ) == Some(text),
        k.baseline is None ==> mapping_text(mapping_in(yaml)->0) == Some(text),
        disk matches Some(d) ==> d.is_file && d.links == 1 && d.writable,
    ensures
        to_write(k, yaml, Ok(k.baseline), disk) == Ok::<Seq<char>, Seq<char>>(text),
{
}

/// What stands in the way of a save is said, and nothing is written: a change too large, a file
/// that could not be read, that changed meanwhile, that is no list of settings, or that is linked,
/// protected or no file at all.
pub proof fn law_what_stands_in_the_way_of_a_save(
    k: Known,
    yaml: Seq<char>,
    current: Result<Option<Seq<char>>, Seq<char>>,
    disk: Option<OnDisk>,
)
    ensures
        byte_len(yaml) > 262_144 ==> to_write(k, yaml, current, disk) == Err::<
            Seq<char>,
            Seq<char>,
        >("Preferences exceed 256 KiB."@),
        byte_len(yaml) <= 262_144 && current is Err ==> to_write(k, yaml, current, disk) == Err::<
            Seq<char>,
            Seq<char>,
        >(current->Err_0),
        byte_len(yaml) <= 262_144 && current is Ok && current->Ok_0 != k.baseline ==> to_write(
            k,
            yaml,
            current,
            disk,
        ) == Err::<Seq<char>, Seq<char>>(
            "Preferences changed on disk. Changes in this session were not saved; restart the shell to reload the file."@,
        ),
        byte_len(yaml) <= 262_144 && current is Ok && current->Ok_0 == k.baseline && k.baseline
            is Some && mapping_in(k.baseline->0) is None ==> to_write(k, yaml, current, disk)
            == Err::<Seq<char>, Seq<char>>(
            "Existing preferences contain invalid YAML and have been preserved."@,
        ),
        disk matches Some(d) ==> !d.is_file || d.links != 1 || !d.writable ==> to_write(
            k,
            yaml,
            current,
            disk,
        ) is Err,
{
}

/// Preferences are read out of a regular file of up to 256 KiB.
pub proof fn law_what_may_be_read(is_file: bool, bytes: u64, r: Result<(), String>)
    requires
        call_ensures(may_read, (is_file, bytes), r),
    ensures
        r is Ok <==> is_file && bytes <= 262_144,
{
}

/// A staged text takes the place of a file that is as it was, and is put where there was none; a
/// file that changed meanwhile stays.
pub proof fn law_how_a_staged_text_becomes_the_file(
    f: PreferenceFile,
    current: Result<Option<String>, String>,
    r: Result<Publish, String>,
)
    requires
        call_ensures(PreferenceFile::publish, (&f, current), r),
    ensures
        r is Ok <==> current is Ok && text::maybe(current->Ok_0) == f@.baseline,
        r matches Ok(how) ==> (how is Rename <==> f@.baseline is Some),
        current is Err ==> r->Err_0@ == current->Err_0@,
        current is Ok && text::maybe(current->Ok_0) != f@.baseline ==> r->Err_0@
            == "Preferences changed while saving; the external version was preserved."@,
{
}

/// A preference file is read once: what it held then is what it is known to hold, until something
/// is saved. One that cannot be read is not known, and no other is touched.
pub proof fn law_a_preference_file_is_read_once(
    kept: &mut Preferences,
    path: &str,
    read: Result<Option<String>, String>,
    i: int,
    r: Result<Option<String>, String>,
)
    requires
        call_ensures(Preferences::load, (kept, path, read), r),
        once_each(old(kept)@),
    ensures
        0 <= i < old(kept)@.len() ==> final(kept)@[i] == old(kept)@[i],
        0 <= i < old(kept)@.len() && old(kept)@[i].path == path@ ==> r is Ok && text::maybe(
            r->Ok_0,
        ) == old(kept)@[i].baseline && final(kept)@ == old(kept)@,
        (forall|j: int| 0 <= j < old(kept)@.len() ==> (#[trigger] old(kept)@[j]).path != path@)
            ==> (r is Ok <==> read is Ok) && (read matches Ok(t) ==> text::maybe(r->Ok_0)
            == text::maybe(t) && final(kept)@.len() == old(kept)@.len() + 1 && final(kept)@.last().path == path@ && final(kept)@.last().baseline == text::maybe(t)),
        r is Err ==> final(kept)@ == old(kept)@,
{
    let s = old(kept)@;
    let f = at_path(path@);
    seqs::lemma_first(s, f);
    if 0 <= i < s.len() && s[i].path == path@ {
        assert forall|j: int| 0 <= j < i implies !f(#[trigger] s[j]) by {
            assert(s[j].path != s[i].path);
        }
        seqs::lemma_first_is(s, f, i);
    }
    if forall|j: int| 0 <= j < s.len() ==> (#[trigger] s[j]).path != path@ {
        seqs::lemma_first_none(s, f);
    }
}

/// What is saved is what its file is known to hold from then on, and no other file is touched.
pub proof fn law_what_is_saved_is_known(kept: &mut Preferences, path: &str, text: String, i: int)
    requires
        call_ensures(Preferences::published, (kept, path, text), ()),
        once_each(old(kept)@),
        seqs::first(old(kept)@, at_path(path@)) < old(kept)@.len(),
        0 <= i < old(kept)@.len(),
    ensures
        final(kept)@.len() == old(kept)@.len(),
        final(kept)@[i].path == old(kept)@[i].path,
        old(kept)@[i].path == path@ ==> final(kept)@[i].baseline == Some(text@),
        old(kept)@[i].path != path@ ==> final(kept)@[i] == old(kept)@[i],
{
    let s = old(kept)@;
    let f = at_path(path@);
    seqs::lemma_first(s, f);
    if s[i].path == path@ {
        assert forall|j: int| 0 <= j < i implies !f(#[trigger] s[j]) by {
            assert(s[j].path != s[i].path);
        }
        seqs::lemma_first_is(s, f, i);
    }
}

/// A text is held up to a quarter of a million bytes, and a file is known by its path.
pub proof fn law_what_is_held(
    text: &str,
    r: Result<(), String>,
    kept: Preferences,
    path: &str,
    f: Option<&PreferenceFile>,
    i: int,
)
    requires
        call_ensures(may_hold, (text,), r),
        once_each(kept@),
        call_ensures(Preferences::file, (&kept, path), f),
    ensures
        r is Ok <==> byte_len(text@) <= 262_144,
        0 <= i < kept@.len() && kept@[i].path == path@ ==> f is Some && f->0@ == kept@[i],
        (forall|j: int| 0 <= j < kept@.len() ==> (#[trigger] kept@[j]).path != path@) ==> f is None,
{
    let s = kept@;
    let g = at_path(path@);
    seqs::lemma_first(s, g);
    if 0 <= i < s.len() && s[i].path == path@ {
        assert forall|j: int| 0 <= j < i implies !g(#[trigger] s[j]) by {
            assert(s[j].path != s[i].path);
        }
        seqs::lemma_first_is(s, g, i);
    }
    if forall|j: int| 0 <= j < s.len() ==> (#[trigger] s[j]).path != path@ {
        seqs::lemma_first_none(s, g);
    }
}

} // verus!
