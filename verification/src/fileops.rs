//! Filesystem operations with no replacement, bounded copying and recoverable trash.
//!
//! Paths are bytes. What is read of the disk comes in as values, and what is to be done to it goes
//! out as values: this module decides.
use crate::caller_identity;
use crate::caller_identity::text_of_bytes;
use crate::json;
use crate::json::comes_before;
use crate::paths;
use crate::paths::{
    copied, file_name, in_a_folder, is_absolute, is_same, is_within, join_path,
};
use crate::text;
use crate::text::{chars_of, decimal, same, to_small};
use vstd::prelude::*;

verus! {

/// How deep folders may be nested for a copy.
pub const DEEPEST: usize = 128;

pub open spec fn canceled() -> Seq<char> {
    "Canceled. Completed items are kept; the current copy was removed."@
}

/// What went wrong with a path.
pub open spec fn trouble(path: Seq<u8>, why: Seq<char>) -> Seq<char> {
    caller_identity::lossy(path) + ": "@ + why
}

// ── Names ───────────────────────────────────────────────────────────

/// Whether a file may be called this.
pub open spec fn is_name(s: Seq<char>) -> bool {
    &&& s.len() > 0
    &&& s != "."@
    &&& s != ".."@
    &&& !s.contains('/')
    &&& !s.contains('\0')
}

/// A name a file may have.
pub fn name(value: &str) -> (r: Result<&str, String>)
    ensures
        match r {
            Ok(v) => is_name(value@) && v@ == value@,
            Err(why) => !is_name(value@) && why@ == "Use a name without /, NUL, . or ..."@,
        },
{
    let v = chars_of(value);
    let mut bad = v.len() == 0 || same(value, ".") || same(value, "..");
    let mut i: usize = 0;
    while i < v.len()
        invariant
            i <= v@.len(),
            v@ == value@,
            bad == (v@.len() == 0 || v@ == "."@ || v@ == ".."@ || exists|k: int|
                0 <= k < i && (#[trigger] v@[k] == '/' || v@[k] == '\0')),
        decreases v@.len() - i,
    {
        if v[i] == '/' || v[i] == '\0' {
            bad = true;
            assert(v@[i as int] == '/' || v@[i as int] == '\0');
        }
        i += 1;
    }
    if bad {
        assert(!is_name(value@)) by {
            if value@.len() > 0 && value@ != "."@ && value@ != ".."@ {
                let k = choose|k: int|
                    0 <= k < i && (#[trigger] v@[k] == '/' || v@[k] == '\0');
                assert(value@.contains(v@[k]));
            }
        }
        return Err("Use a name without /, NUL, . or ...".to_owned());
    }
    Ok(value)
}

/// Where a new file or folder of a given name comes to stand.
pub fn new_entry(dir: &[u8], value: &str) -> (r: Result<Vec<u8>, String>)
    ensures
        match r {
            Ok(path) => is_name(value@) && path@ == paths::joined(dir@, vstd::utf8::encode_utf8(value@)),
            Err(why) => !is_name(value@) && why@ == "Use a name without /, NUL, . or ..."@,
        },
{
    match name(value) {
        Ok(v) => Ok(join_path(dir, value.as_bytes())),
        Err(why) => Err(why),
    }
}

/// What went wrong with a path.
pub fn error(path: &[u8], why: &str) -> (r: String)
    ensures
        r@ == trouble(path@, why@),
{
    let mut out = text_of_bytes(path);
    out.append(": ");
    out.append(why);
    out
}

/// A name nothing else has: the process, the time, and how many were made before.
pub open spec fn unique_name(pid: u32, nanos: u64, serial: u64) -> Seq<char> {
    text::dec(pid as nat) + "-"@ + text::dec(nanos as nat) + "-"@ + text::dec(serial as nat)
}

pub fn unique(pid: u32, nanos: u64, serial: u64) -> (r: String)
    ensures
        r@ == unique_name(pid, nanos, serial),
{
    let mut out = decimal(pid as u64);
    out.append("-");
    out.append(decimal(nanos).as_str());
    out.append("-");
    out.append(decimal(serial).as_str());
    out
}

/// What a rename that was refused says.
pub fn rename_refused(to: &[u8], across_filesystems: bool, why: &str) -> (r: String)
    ensures
        r@ == if across_filesystems {
            "Cross-filesystem moves are not supported. The source was left in place."@
        } else {
            trouble(to@, why@)
        },
{
    if across_filesystems {
        "Cross-filesystem moves are not supported. The source was left in place.".to_owned()
    } else {
        error(to, why)
    }
}

/// Whether work may go on.
pub fn cancelled(cancel: bool) -> (r: Result<(), String>)
    ensures
        r is Ok <==> !cancel,
        r matches Err(why) ==> why@ == canceled(),
{
    if cancel {
        Err("Canceled. Completed items are kept; the current copy was removed.".to_owned())
    } else {
        Ok(())
    }
}

// ── Transfer ────────────────────────────────────────────────────────

#[derive(Clone, Copy, PartialEq, Eq, Debug, Structural)]
pub enum Kind {
    Link,
    Folder,
    File,
    /// A device, socket or pipe.
    Other,
}

/// What was found out before a transfer. A lookup that failed holds what is to be said of it.
pub struct Lookup {
    /// The folder the item goes to, with no links in its path.
    pub destination: Result<Vec<u8>, String>,
    pub kind: Result<Kind, String>,
    /// The folder the item is in, with no links in its path.
    pub source_parent: Result<Vec<u8>, String>,
    /// Whether anything stands where the item would go.
    pub taken: bool,
    /// The item itself, with no links in its path.
    pub source: Result<Vec<u8>, String>,
}

/// Where an item goes.
#[derive(Debug)]
pub struct Transfer {
    pub parent: Vec<u8>,
    pub to: Vec<u8>,
    /// Whether it is moved; it is copied otherwise.
    pub moves: bool,
}

pub open spec fn seen<T: View>(r: Result<T, String>) -> Result<T::V, Seq<char>> {
    match r {
        Ok(v) => Ok(v@),
        Err(why) => Err(why@),
    }
}

pub open spec fn taken_text(to: Seq<u8>) -> Seq<char> {
    caller_identity::lossy(to)
        + " already exists. Rename it or choose another folder; nothing was replaced."@
}

/// Where an item goes, or why it stays. The conditions are looked at in this order.
pub open spec fn transfer_of(src: Seq<u8>, cancel: bool, look: Lookup) -> Result<
    (Seq<u8>, Seq<u8>),
    Seq<char>,
> {
    if cancel {
        Err(canceled())
    } else if paths::leaf(src) is None {
        Err("Cannot transfer a filesystem root"@)
    } else if look.destination is Err {
        Err(look.destination->Err_0@)
    } else if look.kind is Err {
        Err(look.kind->Err_0@)
    } else if !paths::has_parent(src) {
        Err("Source has no parent"@)
    } else if look.source_parent is Err {
        Err(look.source_parent->Err_0@)
    } else {
        let name = paths::leaf(src)->0;
        let parent = look.destination->Ok_0@;
        let to = paths::joined(parent, name);
        if paths::parts(paths::joined(look.source_parent->Ok_0@, name)) == paths::parts(to) {
            Err("Source and destination are the same item."@)
        } else if look.taken {
            Err(taken_text(to))
        } else if look.kind->Ok_0 == Kind::Folder && look.source is Err {
            Err(look.source->Err_0@)
        } else if look.kind->Ok_0 == Kind::Folder && paths::within(parent, look.source->Ok_0@) {
            Err("A folder cannot be placed inside itself."@)
        } else {
            Ok((parent, to))
        }
    }
}

/// Where an item would come to stand in a folder.
pub fn target(src: &[u8], destination: &[u8]) -> (r: Option<Vec<u8>>)
    ensures
        match r {
            Some(to) => paths::leaf(src@) is Some && to@ == paths::joined(
                destination@,
                paths::leaf(src@)->0,
            ),
            None => paths::leaf(src@) is None,
        },
{
    match file_name(src) {
        Some(leaf) => Some(join_path(destination, leaf.as_slice())),
        None => None,
    }
}

/// Decide a transfer: what is there is never replaced, and no folder goes inside itself.
pub fn transfer(src: &[u8], cut: bool, cancel: bool, look: &Lookup) -> (r: Result<Transfer, String>)
    ensures
        match transfer_of(src@, cancel, *look) {
            Ok((parent, to)) => r matches Ok(t) && t.parent@ == parent && t.to@ == to && t.moves
                == cut,
            Err(why) => r matches Err(said) && said@ == why,
        },
{
    if cancel {
        return Err("Canceled. Completed items are kept; the current copy was removed.".to_owned());
    }
    let leaf = match file_name(src) {
        Some(leaf) => leaf,
        None => {
            return Err("Cannot transfer a filesystem root".to_owned());
        },
    };
    let parent = match &look.destination {
        Ok(p) => copied(p.as_slice()),
        Err(why) => {
            return Err(why.clone());
        },
    };
    let kind = match &look.kind {
        Ok(k) => *k,
        Err(why) => {
            return Err(why.clone());
        },
    };
    if !in_a_folder(src) {
        return Err("Source has no parent".to_owned());
    }
    let to = join_path(parent.as_slice(), leaf.as_slice());
    let from = match &look.source_parent {
        Ok(p) => join_path(p.as_slice(), leaf.as_slice()),
        Err(why) => {
            return Err(why.clone());
        },
    };
    if is_same(from.as_slice(), to.as_slice()) {
        return Err("Source and destination are the same item.".to_owned());
    }
    if look.taken {
        let mut out = text_of_bytes(to.as_slice());
        out.append(" already exists. Rename it or choose another folder; nothing was replaced.");
        return Err(out);
    }
    if kind == Kind::Folder {
        match &look.source {
            Ok(original) => {
                if is_within(parent.as_slice(), original.as_slice()) {
                    return Err("A folder cannot be placed inside itself.".to_owned());
                }
            },
            Err(why) => {
                return Err(why.clone());
            },
        }
    }
    Ok(Transfer { parent, to, moves: cut })
}

/// Where a copy is made before it is published.
pub fn stage(parent: &[u8], unique: &str) -> (r: Vec<u8>)
    ensures
        r@ == paths::joined(
            parent@,
            vstd::utf8::encode_utf8(".yantrik-copy-"@ + unique@),
        ),
{
    let mut leaf = ".yantrik-copy-".to_owned();
    leaf.append(unique);
    join_path(parent, leaf.as_str().as_bytes())
}

/// What a copy came to. `left` is what removing the staged copy came to, where one was left.
pub fn copy_outcome(result: Result<(), String>, left: Option<Result<(), String>>) -> (r: Result<
    (),
    String,
>)
    ensures
        match result {
            Ok(_) => r is Ok,
            Err(why) => r matches Err(said) && said@ == match left {
                Some(Err(trouble)) => why@ + "; temporary copy could not be removed: "@ + trouble@,
                _ => why@,
            },
        },
{
    match result {
        Ok(()) => Ok(()),
        Err(why) => match left {
            Some(Err(trouble)) => {
                let mut out = why;
                out.append("; temporary copy could not be removed: ");
                out.append(trouble.as_str());
                Err(out)
            },
            _ => Err(why),
        },
    }
}

// ── Copying ─────────────────────────────────────────────────────────

/// Something that is being copied, and how far it is.
pub enum Task {
    /// Not looked at yet.
    Node { src: Vec<u8>, dst: Vec<u8> },
    /// A folder whose entries are being walked.
    Folder { src: Vec<u8>, dst: Vec<u8> },
    /// A file whose content is being copied.
    File { src: Vec<u8>, dst: Vec<u8> },
}

pub enum Step {
    Node,
    Folder,
    File,
}

/// What a [`Task`] is.
#[verifier::ext_equal]
pub struct Todo {
    pub step: Step,
    pub src: Seq<u8>,
    pub dst: Seq<u8>,
}

impl View for Task {
    type V = Todo;

    open spec fn view(&self) -> Todo {
        match *self {
            Task::Node { src, dst } => Todo { step: Step::Node, src: src@, dst: dst@ },
            Task::Folder { src, dst } => Todo { step: Step::Folder, src: src@, dst: dst@ },
            Task::File { src, dst } => Todo { step: Step::File, src: src@, dst: dst@ },
        }
    }
}

/// A copy under way: the item at hand, and the folders it lies in, outermost first.
pub struct Copying {
    stack: Vec<Task>,
}

spec fn todos(s: Seq<Task>) -> Seq<Todo> {
    Seq::new(s.len(), |i: int| s[i]@)
}

impl View for Copying {
    type V = Seq<Todo>;

    closed spec fn view(&self) -> Seq<Todo> {
        todos(self.stack@)
    }
}

/// Whether one item lies directly in a folder.
pub open spec fn directly_in(t: Todo, folder: Todo) -> bool {
    exists|name: Seq<u8>|
        t.src == #[trigger] paths::joined(folder.src, name) && t.dst == paths::joined(
            folder.dst,
            name,
        )
}

/// Everything but the item at hand is a folder, each item lies in the folder before it, and
/// nothing is nested deeper than it may be.
pub open spec fn in_step(s: Seq<Todo>) -> bool {
    &&& s.len() <= DEEPEST + 2
    &&& forall|i: int| 0 <= i < s.len() - 1 ==> (#[trigger] s[i]).step is Folder
    &&& forall|i: int| 0 < i < s.len() ==> directly_in(#[trigger] s[i], s[i - 1])
    &&& s.len() > 0 && !(s.last().step is Node) ==> s.len() <= DEEPEST + 1
}

/// What is to be done next.
#[derive(Debug)]
pub enum Order {
    /// Find out what is at the source.
    Inspect,
    /// Take the next entry of the folder at hand.
    NextEntry,
    /// Copy the next bytes of the file at hand.
    ReadSome,
    Done,
    Fail(String),
}

pub enum Ordered {
    Inspect,
    NextEntry,
    ReadSome,
    Done,
    Fail(Seq<char>),
}

impl View for Order {
    type V = Ordered;

    open spec fn view(&self) -> Ordered {
        match *self {
            Order::Inspect => Ordered::Inspect,
            Order::NextEntry => Ordered::NextEntry,
            Order::ReadSome => Ordered::ReadSome,
            Order::Done => Ordered::Done,
            Order::Fail(why) => Ordered::Fail(why@),
        }
    }
}

pub open spec fn order_of(s: Seq<Todo>, cancel: bool) -> Ordered {
    if s.len() == 0 {
        Ordered::Done
    } else {
        match s.last().step {
            Step::Node => if cancel {
                Ordered::Fail(canceled())
            } else if s.len() > DEEPEST + 1 {
                Ordered::Fail("Folder nesting exceeds 128 levels."@)
            } else {
                Ordered::Inspect
            },
            Step::Folder => Ordered::NextEntry,
            Step::File => if cancel {
                Ordered::Fail(canceled())
            } else {
                Ordered::ReadSome
            },
        }
    }
}

/// What is to be made of the item at hand.
#[derive(Clone, Copy, PartialEq, Eq, Debug, Structural)]
pub enum Make {
    /// A link to where the source points.
    Link,
    /// A folder, whose entries come next.
    Folder,
    /// A file, whose content comes next.
    File,
}

/// A folder or a file whose content has been copied: it gets the permissions of its source.
#[derive(Debug)]
pub struct Finished {
    pub src: Vec<u8>,
    pub dst: Vec<u8>,
}

pub open spec fn not_copied(src: Seq<u8>) -> Seq<char> {
    caller_identity::lossy(src) + " is a device, socket or pipe; it cannot be copied."@
}

impl Copying {
    pub fn new(src: &[u8], dst: &[u8]) -> (r: Copying)
        ensures
            in_step(r@),
            r@ == seq![Todo { step: Step::Node, src: src@, dst: dst@ }],
    {
        let mut stack: Vec<Task> = Vec::new();
        stack.push(Task::Node { src: copied(src), dst: copied(dst) });
        assert(todos(stack@) =~= seq![Todo { step: Step::Node, src: src@, dst: dst@ }]);
        Copying { stack }
    }

    /// What is to be done next.
    pub fn next(&self, cancel: bool) -> (r: Order)
        ensures
            r@ == order_of(self@, cancel),
    {
        if self.stack.len() == 0 {
            return Order::Done;
        }
        let top = self.stack.len() - 1;
        assert(self@.last() == self.stack@[top as int]@);
        match &self.stack[top] {
            Task::Node { .. } => {
                if cancel {
                    Order::Fail(
                        "Canceled. Completed items are kept; the current copy was removed.".to_owned(),
                    )
                } else if top > DEEPEST {
                    Order::Fail("Folder nesting exceeds 128 levels.".to_owned())
                } else {
                    Order::Inspect
                }
            },
            Task::Folder { .. } => Order::NextEntry,
            Task::File { .. } => {
                if cancel {
                    Order::Fail(
                        "Canceled. Completed items are kept; the current copy was removed.".to_owned(),
                    )
                } else {
                    Order::ReadSome
                }
            },
        }
    }

    /// The item at hand: where it is, and where its copy goes.
    pub fn at_hand(&self) -> (r: Option<(Vec<u8>, Vec<u8>)>)
        ensures
            match r {
                Some((src, dst)) => self@.len() > 0 && src@ == self@.last().src && dst@
                    == self@.last().dst,
                None => self@.len() == 0,
            },
    {
        if self.stack.len() == 0 {
            return None;
        }
        let top = self.stack.len() - 1;
        assert(self@.last() == self.stack@[top as int]@);
        match &self.stack[top] {
            Task::Node { src, dst } => Some((copied(src.as_slice()), copied(dst.as_slice()))),
            Task::Folder { src, dst } => Some((copied(src.as_slice()), copied(dst.as_slice()))),
            Task::File { src, dst } => Some((copied(src.as_slice()), copied(dst.as_slice()))),
        }
    }

    /// The item at hand was looked at. A link is copied as a link and never followed.
    pub fn inspected(&mut self, kind: Kind) -> (r: Result<Make, String>)
        requires
            in_step(old(self)@),
            order_of(old(self)@, false) is Inspect,
        ensures
            in_step(final(self)@),
            ({
                let was = old(self)@;
                let rest = was.drop_last();
                match kind {
                    Kind::Link => r == Ok::<Make, String>(Make::Link) && final(self)@ == rest,
                    Kind::Folder => r == Ok::<Make, String>(Make::Folder) && final(self)@
                        == rest.push((Todo { step: Step::Folder, ..was.last() })),
                    Kind::File => r == Ok::<Make, String>(Make::File) && final(self)@ == rest.push(
                        (Todo { step: Step::File, ..was.last() }),
                    ),
                    Kind::Other => (r matches Err(why) && why@ == not_copied(was.last().src))
                        && final(self)@ == rest,
                }
            }),
    {
        let ghost was = self@;
        let ghost stack = self.stack@;
        assert(was.last() == stack.last()@);
        let task = self.stack.pop();
        proof {
            assert(self@ =~= was.drop_last());
            lemma_rest_in_step(was);
        }
        match task {
            Some(Task::Node { src, dst }) => match kind {
                Kind::Link => Ok(Make::Link),
                Kind::Folder => {
                    let ghost now = Todo { step: Step::Folder, src: src@, dst: dst@ };
                    self.stack.push(Task::Folder { src, dst });
                    proof {
                        assert(self@ =~= was.drop_last().push(now));
                        lemma_same_place_in_step(was, now);
                    }
                    Ok(Make::Folder)
                },
                Kind::File => {
                    let ghost now = Todo { step: Step::File, src: src@, dst: dst@ };
                    self.stack.push(Task::File { src, dst });
                    proof {
                        assert(self@ =~= was.drop_last().push(now));
                        lemma_same_place_in_step(was, now);
                    }
                    Ok(Make::File)
                },
                Kind::Other => {
                    let mut out = text_of_bytes(src.as_slice());
                    out.append(" is a device, socket or pipe; it cannot be copied.");
                    Err(out)
                },
            },
            _ => {
                proof {
                    assert(stack.last()@.step is Node);
                }
                Ok(Make::Link)
            },
        }
    }

    /// The folder at hand had another entry, or no more. A folder that is done gets its
    /// permissions.
    pub fn entry(&mut self, name: Option<&[u8]>) -> (r: Option<Finished>)
        requires
            in_step(old(self)@),
            order_of(old(self)@, false) is NextEntry,
        ensures
            in_step(final(self)@),
            ({
                let was = old(self)@;
                match name {
                    Some(n) => r is None && final(self)@ == was.push(
                        (Todo {
                            step: Step::Node,
                            src: paths::joined(was.last().src, n@),
                            dst: paths::joined(was.last().dst, n@),
                        }),
                    ),
                    None => (r matches Some(f) && f.src@ == was.last().src && f.dst@
                        == was.last().dst) && final(self)@ == was.drop_last(),
                }
            }),
    {
        let ghost was = self@;
        let (src, dst) = match self.at_hand() {
            Some(p) => p,
            None => {
                return None;
            },
        };
        match name {
            Some(n) => {
                let task = Task::Node {
                    src: join_path(src.as_slice(), n),
                    dst: join_path(dst.as_slice(), n),
                };
                let ghost now = task@;
                self.stack.push(task);
                proof {
                    assert(self@ =~= was.push(now));
                    assert(directly_in(now, was.last())) by {
                        assert(now.src == paths::joined(was.last().src, n@));
                    }
                    assert forall|i: int| 0 < i < self@.len() implies directly_in(
                        #[trigger] self@[i],
                        self@[i - 1],
                    ) by {
                        if i < was.len() {
                            assert(directly_in(was[i], was[i - 1]));
                        }
                    }
                }
                None
            },
            None => {
                let _ = self.stack.pop();
                proof {
                    assert(self@ =~= was.drop_last());
                    lemma_rest_in_step(was);
                }
                Some(Finished { src, dst })
            },
        }
    }

    /// So many more bytes of the file at hand were read; none where it is at its end. A file that
    /// is done gets its permissions.
    pub fn read(&mut self, bytes: usize) -> (r: Option<Finished>)
        requires
            in_step(old(self)@),
            order_of(old(self)@, false) is ReadSome,
        ensures
            in_step(final(self)@),
            ({
                let was = old(self)@;
                if bytes > 0 {
                    r is None && final(self)@ == was
                } else {
                    (r matches Some(f) && f.src@ == was.last().src && f.dst@ == was.last().dst)
                        && final(self)@ == was.drop_last()
                }
            }),
    {
        if bytes > 0 {
            return None;
        }
        let ghost was = self@;
        let (src, dst) = match self.at_hand() {
            Some(p) => p,
            None => {
                return None;
            },
        };
        let _ = self.stack.pop();
        proof {
            assert(self@ =~= was.drop_last());
            lemma_rest_in_step(was);
        }
        Some(Finished { src, dst })
    }
}

proof fn lemma_rest_in_step(s: Seq<Todo>)
    requires
        in_step(s),
        s.len() > 0,
    ensures
        in_step(s.drop_last()),
{
    let t = s.drop_last();
    assert forall|i: int| 0 < i < t.len() implies directly_in(#[trigger] t[i], t[i - 1]) by {
        assert(directly_in(s[i], s[i - 1]));
    }
    assert forall|i: int| 0 <= i < t.len() - 1 implies (#[trigger] t[i]).step is Folder by {
        assert(s[i].step is Folder);
    }
}

proof fn lemma_same_place_in_step(s: Seq<Todo>, now: Todo)
    requires
        in_step(s),
        0 < s.len() <= DEEPEST + 1,
        now.src == s.last().src,
        now.dst == s.last().dst,
    ensures
        in_step(s.drop_last().push(now)),
{
    let t = s.drop_last().push(now);
    assert forall|i: int| 0 < i < t.len() implies directly_in(#[trigger] t[i], t[i - 1]) by {
        assert(directly_in(s[i], s[i - 1]));
        let name = choose|name: Seq<u8>|
            s[i].src == #[trigger] paths::joined(s[i - 1].src, name) && s[i].dst
                == paths::joined(s[i - 1].dst, name);
        assert(t[i].src == paths::joined(t[i - 1].src, name));
    }
    assert forall|i: int| 0 <= i < t.len() - 1 implies (#[trigger] t[i]).step is Folder by {
        assert(s[i].step is Folder);
    }
}

/// Whether the file that was opened is still the file that was looked at.
pub fn may_copy_from(still_a_file: bool) -> (r: Result<(), String>)
    ensures
        r is Ok <==> still_a_file,
        r matches Err(why) ==> why@ == "Source changed while copying."@,
{
    if still_a_file {
        Ok(())
    } else {
        Err("Source changed while copying.".to_owned())
    }
}

// ── Trash ───────────────────────────────────────────────────────────

/// A list of bytes as it is recorded: their numbers in brackets, a comma between each two.
pub open spec fn record_of(path: Seq<u8>) -> Seq<u8> {
    vstd::utf8::encode_utf8(
        "["@ + text::join(Seq::new(path.len(), |i: int| text::dec(path[i] as nat)), ","@) + "]"@,
    )
}

/// The list of bytes `serde_json` reads, or what it says where there is none.
pub uninterp spec fn path_in(record: Seq<u8>) -> Result<Seq<u8>, Seq<char>>;

/// Whether a record reads back as a path.
pub open spec fn reads_as(record: Seq<u8>, path: Seq<u8>) -> bool {
    path_in(record) == Ok::<Seq<u8>, Seq<char>>(path)
}

/// `serde_json::to_vec` on a list of bytes, which it can always write, as the list of their numbers
/// with no space in it, and which `serde_json::from_slice` reads back out of what was written.
#[verifier::external_body]
fn write_record(path: &[u8]) -> (r: Result<Vec<u8>, String>)
    ensures
        r is Ok,
        r matches Ok(record) ==> record@ == record_of(path@),
        r matches Ok(record) ==> reads_as(record@, path@),
{
    serde_json::to_vec(path).map_err(|e| e.to_string())
}

/// `serde_json::from_slice` into a list of bytes: what it reads, or says where it cannot, depends
/// on the bytes alone.
#[verifier::external_body]
fn read_record(record: &[u8]) -> (r: Result<Vec<u8>, String>)
    ensures
        seen(r) == path_in(record@),
{
    serde_json::from_slice::<Vec<u8>>(record).map_err(|e| e.to_string())
}

/// An item in the trash.
#[derive(Debug, Clone)]
pub struct TrashItem {
    pub id: String,
    pub name: String,
    pub original: Vec<u8>,
    pub stored: Vec<u8>,
}

/// What a [`TrashItem`] holds.
pub struct Trashed {
    pub id: Seq<char>,
    pub name: Seq<char>,
    pub original: Seq<u8>,
    pub stored: Seq<u8>,
}

impl View for TrashItem {
    type V = Trashed;

    open spec fn view(&self) -> Trashed {
        Trashed {
            id: self.id@,
            name: self.name@,
            original: self.original@,
            stored: self.stored@,
        }
    }
}

pub open spec fn trash_home(share: Seq<u8>) -> Seq<u8> {
    paths::joined(share, vstd::utf8::encode_utf8("yantrik/trash-v2"@))
}

/// Where the trash is: below the data folder where that is set to a place of its own, and below
/// the person's home otherwise.
pub fn trash_root(data_home: Option<&[u8]>, home: &[u8]) -> (r: Vec<u8>)
    ensures
        r@ == match data_home {
            Some(d) if paths::absolute(d@) => trash_home(d@),
            _ => trash_home(
                paths::joined(home@, vstd::utf8::encode_utf8(".local/share"@)),
            ),
        },
{
    if let Some(d) = data_home {
        if is_absolute(d) {
            return join_path(d, "yantrik/trash-v2".as_bytes());
        }
    }
    let share = join_path(home, ".local/share".as_bytes());
    join_path(share.as_slice(), "yantrik/trash-v2".as_bytes())
}

pub open spec fn stored_at(root: Seq<u8>, id: Seq<char>) -> Seq<u8> {
    paths::joined(
        paths::joined(root, vstd::utf8::encode_utf8("files"@)),
        vstd::utf8::encode_utf8(id),
    )
}

pub open spec fn recorded_at(root: Seq<u8>, id: Seq<char>) -> Seq<u8> {
    paths::joined(
        paths::joined(root, vstd::utf8::encode_utf8("info"@)),
        vstd::utf8::encode_utf8(id),
    )
}

/// Where an item of the trash is kept.
pub fn stored_path(root: &[u8], id: &str) -> (r: Vec<u8>)
    ensures
        r@ == stored_at(root@, id@),
{
    let files = join_path(root, "files".as_bytes());
    join_path(files.as_slice(), id.as_bytes())
}

/// Where it is kept what an item of the trash was.
pub fn e_path(root: &[u8], id: &str) -> (r: Vec<u8>)
    ensures
        r@ == recorded_at(root@, id@),
{
    let info = join_path(root, "info".as_bytes());
    join_path(info.as_slice(), id.as_bytes())
}

/// What is to be moved to the trash, and what is to be kept of it.
#[derive(Debug)]
pub struct Discard {
    pub source: Vec<u8>,
    pub record: Vec<u8>,
}

pub open spec fn discard_of(
    src: Seq<u8>,
    root: Seq<u8>,
    parent: Result<Seq<u8>, Seq<char>>,
) -> Result<Seq<u8>, Seq<char>> {
    if !paths::has_parent(src) {
        Err("Cannot trash a filesystem root"@)
    } else {
        match parent {
            Err(why) => Err(why),
            Ok(p) => match paths::leaf(src) {
                None => Err("Cannot trash a filesystem root"@),
                Some(leaf) => {
                    let source = paths::joined(p, leaf);
                    if paths::within(source, root) || paths::within(root, source) {
                        Err("The Trash storage folder cannot be moved to Trash."@)
                    } else {
                        Ok(source)
                    }
                },
            },
        }
    }
}

/// Decide what moves to the trash. `parent` is the folder the item is in, with no links in its
/// path, or what is to be said where that could not be found out.
pub fn trash(src: &[u8], root: &[u8], parent: Result<Vec<u8>, String>) -> (r: Result<
    Discard,
    String,
>)
    ensures
        match discard_of(src@, root@, seen(parent)) {
            Ok(source) => r matches Ok(d) && d.source@ == source && d.record@ == record_of(source)
                && reads_as(d.record@, source),
            Err(why) => r matches Err(said) && said@ == why,
        },
{
    if !in_a_folder(src) {
        return Err("Cannot trash a filesystem root".to_owned());
    }
    let parent = match parent {
        Ok(p) => p,
        Err(why) => {
            return Err(why);
        },
    };
    let leaf = match file_name(src) {
        Some(leaf) => leaf,
        None => {
            return Err("Cannot trash a filesystem root".to_owned());
        },
    };
    let source = join_path(parent.as_slice(), leaf.as_slice());
    if is_within(source.as_slice(), root) || is_within(root, source.as_slice()) {
        return Err("The Trash storage folder cannot be moved to Trash.".to_owned());
    }
    match write_record(source.as_slice()) {
        Ok(record) => Ok(Discard { source, record }),
        Err(why) => Err(why),
    }
}

/// An entry of the trash as it was read.
#[derive(Debug)]
pub struct Found {
    /// Its name, where that is text.
    pub id: Option<String>,
    /// What is recorded of it, or what is to be said where that could not be read.
    pub record: Result<Vec<u8>, String>,
    pub stored: Vec<u8>,
}

/// What an item of the trash is called, given where it was: nothing where that was the root.
pub open spec fn shown_name(original: Seq<u8>) -> Seq<char> {
    caller_identity::lossy(
        match paths::leaf(original) {
            Some(leaf) => leaf,
            None => Seq::empty(),
        },
    )
}

/// What an entry of the trash is.
pub open spec fn listed(found: Result<Found, String>) -> Result<Trashed, Seq<char>> {
    match found {
        Err(why) => Err(why@),
        Ok(f) => match f.id {
            None => Err("Invalid Trash identifier"@),
            Some(id) => match f.record {
                Err(why) => Err(why@),
                Ok(record) => match path_in(record@) {
                    Err(why) => Err(why),
                    Ok(original) => item_for(id@, original, f.stored@),
                },
            },
        },
    }
}

/// What an entry of the trash is, given where it was.
pub open spec fn item_for(id: Seq<char>, original: Seq<u8>, stored: Seq<u8>) -> Result<
    Trashed,
    Seq<char>,
> {
    if paths::absolute(original) {
        Ok(Trashed { id, name: shown_name(original), original, stored })
    } else {
        Err("Trash metadata has an invalid original path."@)
    }
}

/// The first `n` entries, put in order one after the other, or the first thing that is wrong.
pub open spec fn listed_to(found: Seq<Result<Found, String>>, n: int) -> Result<
    Seq<Trashed>,
    Seq<char>,
>
    decreases n,
{
    if n <= 0 {
        Ok(Seq::empty())
    } else {
        match listed_to(found, n - 1) {
            Err(why) => Err(why),
            Ok(items) => match listed(found[n - 1]) {
                Err(why) => Err(why),
                Ok(item) => Ok(settled(items, item)),
            },
        }
    }
}

/// What items are ordered by: their names, in small letters.
pub open spec fn order_key(t: Trashed) -> Seq<char> {
    text::small(t.name)
}

/// The first position at or after `from` whose item comes after this one.
pub open spec fn seat(items: Seq<Trashed>, item: Trashed, from: int) -> int
    decreases items.len() - from,
{
    if from < 0 || from >= items.len() {
        items.len() as int
    } else if json::before(order_key(item), order_key(items[from])) {
        from
    } else {
        seat(items, item, from + 1)
    }
}

/// An item among those in order: behind all that do not come after it.
pub open spec fn settled(items: Seq<Trashed>, item: Trashed) -> Seq<Trashed> {
    items.insert(seat(items, item, 0), item)
}

proof fn lemma_seat(items: Seq<Trashed>, item: Trashed, from: int)
    requires
        0 <= from <= items.len(),
    ensures
        from <= seat(items, item, from) <= items.len(),
        seat(items, item, from) < items.len() ==> json::before(
            order_key(item),
            order_key(items[seat(items, item, from)]),
        ),
        forall|i: int|
            from <= i < seat(items, item, from) ==> !json::before(
                order_key(item),
                order_key(#[trigger] items[i]),
            ),
    decreases items.len() - from,
{
    if from < items.len() && !json::before(order_key(item), order_key(items[from])) {
        lemma_seat(items, item, from + 1);
    }
}

/// Items are in order: none comes after one behind it.
pub open spec fn ordered(items: Seq<Trashed>) -> bool {
    forall|i: int, j: int|
        0 <= i < j < items.len() ==> !json::before(
            order_key(#[trigger] items[j]),
            order_key(#[trigger] items[i]),
        )
}

/// What items of the trash are.
pub open spec fn views(s: Seq<TrashItem>) -> Seq<Trashed> {
    Seq::new(s.len(), |i: int| s[i]@)
}

fn put(items: &mut Vec<TrashItem>, item: TrashItem)
    ensures
        views(final(items)@) == settled(views(old(items)@), item@),
{
    let ghost was = views(items@);
    let ghost it = item@;
    let key = to_small(item.name.as_str());
    let mut i: usize = 0;
    while i < items.len()
        invariant_except_break
            i <= items@.len(),
            was == views(items@),
            key@ == order_key(it),
            seat(was, it, 0) == seat(was, it, i as int),
        ensures
            i <= items@.len(),
            was == views(items@),
            seat(was, it, 0) == i,
        decreases items@.len() - i,
    {
        assert(was[i as int] == items@[i as int]@);
        let other = to_small(items[i].name.as_str());
        if comes_before(key.as_str(), other.as_str()) {
            break;
        }
        i += 1;
    }
    items.insert(i, item);
    assert(views(items@) =~= was.insert(i as int, it));
}

/// An item of the trash, given where it was.
pub fn trash_item(id: String, original: Vec<u8>, stored: Vec<u8>) -> (r: Result<TrashItem, String>)
    ensures
        seen(r) == item_for(id@, original@, stored@),
{
    if !is_absolute(original.as_slice()) {
        return Err("Trash metadata has an invalid original path.".to_owned());
    }
    let name = match file_name(original.as_slice()) {
        Some(leaf) => text_of_bytes(leaf.as_slice()),
        None => {
            let none: Vec<u8> = Vec::new();
            assert(none@ =~= Seq::<u8>::empty());
            text_of_bytes(none.as_slice())
        },
    };
    Ok(TrashItem { id, name, original, stored })
}

/// What is in the trash, by name, or the first thing that is wrong with it.
pub fn trash_items(found: Vec<Result<Found, String>>) -> (r: Result<Vec<TrashItem>, String>)
    ensures
        match listed_to(found@, found@.len() as int) {
            Ok(items) => r matches Ok(v) && views(v@) == items,
            Err(why) => r matches Err(said) && said@ == why,
        },
{
    let mut items: Vec<TrashItem> = Vec::new();
    assert(views(items@) =~= Seq::empty());
    let mut i: usize = 0;
    while i < found.len()
        invariant
            i <= found@.len(),
            listed_to(found@, i as int) == Ok::<Seq<Trashed>, Seq<char>>(views(items@)),
        decreases found@.len() - i,
    {
        proof {
            lemma_listed_fails(found@, i + 1, found@.len() as int);
        }
        let item = match &found[i] {
            Err(why) => Err(why.clone()),
            Ok(f) => match &f.id {
                None => Err("Invalid Trash identifier".to_owned()),
                Some(id) => match &f.record {
                    Err(why) => Err(why.clone()),
                    Ok(record) => match read_record(record.as_slice()) {
                        Err(why) => Err(why),
                        Ok(original) => trash_item(
                            id.clone(),
                            original,
                            copied(f.stored.as_slice()),
                        ),
                    },
                },
            },
        };
        match item {
            Ok(item) => {
                put(&mut items, item);
            },
            Err(why) => {
                return Err(why);
            },
        }
        i += 1;
    }
    Ok(items)
}

proof fn lemma_listed_fails(found: Seq<Result<Found, String>>, n: int, m: int)
    requires
        0 <= n <= m,
    ensures
        listed_to(found, n) is Err ==> listed_to(found, m) == listed_to(found, n),
    decreases m - n,
{
    if n < m {
        lemma_listed_fails(found, n, m - 1);
    }
}

/// What restoring an item takes.
#[derive(Debug)]
pub struct Restore {
    pub from: Vec<u8>,
    pub to: Vec<u8>,
    pub record: Vec<u8>,
}

/// How an item leaves the trash for where it was: out of where it is kept, to where it was, and
/// which record goes. An item whose id is no name is none of the trash's.
pub open spec fn way_back(item: Trashed, root: Seq<u8>) -> Option<(Seq<u8>, Seq<u8>, Seq<u8>)> {
    if is_name(item.id) {
        Some((stored_at(root, item.id), item.original, recorded_at(root, item.id)))
    } else {
        None
    }
}

/// Decide how an item leaves the trash for where it was.
pub fn restore(item: &TrashItem, root: &[u8]) -> (r: Result<Restore, String>)
    ensures
        match way_back(item@, root@) {
            Some((from, to, record)) => r matches Ok(t) && t.from@ == from && t.to@ == to
                && t.record@ == record,
            None => r matches Err(why) && why@ == "Use a name without /, NUL, . or ..."@,
        },
{
    match name(item.id.as_str()) {
        Ok(_) => Ok(
            Restore {
                from: stored_path(root, item.id.as_str()),
                to: copied(item.original.as_slice()),
                record: e_path(root, item.id.as_str()),
            },
        ),
        Err(why) => Err(why),
    }
}

/// What is said where an item was restored and its record is still there.
pub fn record_left(why: &str) -> (r: String)
    ensures
        r@ == "Restored, but could not remove Trash metadata: "@ + why@,
{
    let mut out = "Restored, but could not remove Trash metadata: ".to_owned();
    out.append(why);
    out
}

// ── Laws ────────────────────────────────────────────────────────────

/// A transfer never goes where something is, never onto the item itself, and puts no folder inside
/// itself.
pub proof fn law_a_transfer_replaces_nothing(src: Seq<u8>, cancel: bool, look: Lookup)
    requires
        transfer_of(src, cancel, look) is Ok,
    ensures
        !cancel,
        !look.taken,
        paths::parts(paths::joined(look.source_parent->Ok_0@, paths::leaf(src)->0))
            != paths::parts(transfer_of(src, cancel, look)->Ok_0.1),
        look.kind->Ok_0 == Kind::Folder ==> !paths::within(
            transfer_of(src, cancel, look)->Ok_0.0,
            look.source->Ok_0@,
        ),
{
}

/// However a copy goes on, only folders are walked into, each item lies directly in the folder
/// before it, and nothing is looked at that is nested too deep.
pub proof fn law_only_folders_are_walked(s: Seq<Todo>, cancel: bool)
    requires
        in_step(s),
    ensures
        forall|i: int|
            0 < i < s.len() ==> (#[trigger] s[i - 1]).step is Folder && directly_in(s[i], s[i - 1]),
        order_of(s, cancel) is Inspect ==> s.len() <= DEEPEST + 1,
        cancel ==> !(order_of(s, cancel) is Inspect) && !(order_of(s, cancel) is ReadSome),
{
    assert forall|i: int| 0 < i < s.len() implies (#[trigger] s[i - 1]).step is Folder
        && directly_in(s[i], s[i - 1]) by {
        assert(directly_in(s[i], s[i - 1]));
        assert(s[i - 1].step is Folder);
    }
}

/// What moves to the trash is neither the trash, nor in it, nor around it, and its record says
/// where it was.
pub proof fn law_the_trash_is_never_trashed(
    src: Seq<u8>,
    root: Seq<u8>,
    parent: Result<Seq<u8>, Seq<char>>,
)
    requires
        discard_of(src, root, parent) is Ok,
    ensures
        !paths::within(discard_of(src, root, parent)->Ok_0, root),
        !paths::within(root, discard_of(src, root, parent)->Ok_0),
{
}

/// What goes to the trash comes back to where it was: kept under a name of its own, with its record
/// beside it, it is listed as what it was, and its way back leads from where it is kept to there.
pub proof fn law_the_trash_gives_back_what_it_was_given(
    src: Seq<u8>,
    root: Seq<u8>,
    folder: Seq<u8>,
    source: Seq<u8>,
    pid: u32,
    nanos: u64,
    serial: u64,
    found: Found,
)
    requires
        paths::absolute(folder),
        discard_of(src, root, Ok(folder)) == Ok::<Seq<u8>, Seq<char>>(source),
        found.id matches Some(id) && id@ == unique_name(pid, nanos, serial),
        found.record matches Ok(record) && reads_as(record@, source),
    ensures
        ({
            let id = unique_name(pid, nanos, serial);
            let item = Trashed {
                id,
                name: shown_name(source),
                original: source,
                stored: found.stored@,
            };
            &&& listed(Ok(found)) == Ok::<Trashed, Seq<char>>(item)
            &&& way_back(item, root) == Some((stored_at(root, id), source, recorded_at(root, id)))
        }),
{
    let id = unique_name(pid, nanos, serial);
    let dash = "-"@;
    reveal_strlit("-");
    reveal_strlit(".");
    reveal_strlit("..");
    lemma_dec_digits(pid as nat);
    lemma_dec_digits(nanos as nat);
    lemma_dec_digits(serial as nat);
    let first = text::dec(pid as nat);
    assert(id[0] == first[0]);
    assert forall|i: int| 0 <= i < id.len() implies id[i] != '/' && id[i] != '\0' by {
        let second = text::dec(nanos as nat);
        let third = text::dec(serial as nat);
        if i < first.len() {
            assert(id[i] == first[i]);
        } else if i == first.len() {
            assert(id[i] == '-');
        } else if i < first.len() + 1 + second.len() {
            assert(id[i] == second[i - first.len() - 1]);
        } else if i == first.len() + 1 + second.len() {
            assert(id[i] == '-');
        } else {
            assert(id[i] == third[i - first.len() - 1 - second.len() - 1]);
        }
    }
    assert(is_name(id));
    assert(paths::absolute(source));
}

/// The trash is listed in order, and holds one item for each entry.
pub proof fn law_the_trash_is_listed_in_order(found: Seq<Result<Found, String>>, n: int)
    requires
        0 <= n <= found.len(),
        listed_to(found, n) is Ok,
    ensures
        ordered(listed_to(found, n)->Ok_0),
        listed_to(found, n)->Ok_0.len() == n,
        forall|i: int|
            0 <= i < n ==> listed(#[trigger] found[i]) is Ok && listed_to(found, n)->Ok_0.contains(
                listed(found[i])->Ok_0,
            ),
    decreases n,
{
    if n > 0 {
        law_the_trash_is_listed_in_order(found, n - 1);
        let items = listed_to(found, n - 1)->Ok_0;
        let item = listed(found[n - 1])->Ok_0;
        let k = seat(items, item, 0);
        lemma_seat(items, item, 0);
        let now = settled(items, item);
        assert forall|i: int, j: int| 0 <= i < j < now.len() implies !json::before(
            order_key(#[trigger] now[j]),
            order_key(#[trigger] now[i]),
        ) by {
            let a = order_key(now[i]);
            let b = order_key(now[j]);
            let x = order_key(item);
            json::lemma_before_total(a, b);
            if i == k {
                // Everything behind the item's place comes after it, or after what does.
                if json::before(b, a) {
                    json::lemma_before_trans(b, x, order_key(items[k]));
                    if j - 1 > k {
                        assert(!json::before(order_key(items[j - 1]), order_key(items[k])));
                    } else {
                        json::lemma_before_total(b, b);
                    }
                }
            } else if j == k {
                assert(!json::before(x, order_key(items[i])));
            } else {
                let p = if i < k { i } else { i - 1 };
                let q = if j < k { j } else { j - 1 };
                assert(now[i] == items[p] && now[j] == items[q]);
                assert(!json::before(order_key(items[q]), order_key(items[p])));
            }
        }
        assert forall|i: int| 0 <= i < n implies listed(#[trigger] found[i]) is Ok && now.contains(
            listed(found[i])->Ok_0,
        ) by {
            if i < n - 1 {
                let p = choose|p: int|
                    0 <= p < items.len() && items[p] == listed(found[i])->Ok_0;
                assert(now[if p < k { p } else { p + 1 }] == listed(found[i])->Ok_0);
            } else {
                assert(now[k] == item);
            }
        }
    }
}

proof fn lemma_dec_digits(n: nat)
    ensures
        text::all_digits(text::dec(n)),
    decreases n,
{
    if n >= 10 {
        lemma_dec_digits(n / 10);
    }
}

proof fn lemma_up_to_dash(a: Seq<char>, x: Seq<char>, b: Seq<char>, y: Seq<char>)
    requires
        text::all_digits(a),
        text::all_digits(b),
        a + "-"@ + x == b + "-"@ + y,
    ensures
        a == b,
        x == y,
{
    reveal_strlit("-");
    let s = a + "-"@ + x;
    let t = b + "-"@ + y;
    assert(s[a.len() as int] == '-');
    assert(t[b.len() as int] == '-');
    if a.len() < b.len() {
        assert(t[a.len() as int] == b[a.len() as int]);
        assert(text::is_digit(b[a.len() as int]));
    }
    if b.len() < a.len() {
        assert(s[b.len() as int] == a[b.len() as int]);
        assert(text::is_digit(a[b.len() as int]));
    }
    assert(a =~= s.take(a.len() as int));
    assert(b =~= t.take(b.len() as int));
    assert(x =~= s.skip(a.len() as int + 1));
    assert(y =~= t.skip(b.len() as int + 1));
}

/// Two names are the same only where the process, the time and the count are.
pub proof fn law_unique_names_differ(p: u32, n: u64, s: u64, q: u32, m: u64, t: u64)
    requires
        unique_name(p, n, s) == unique_name(q, m, t),
    ensures
        p == q,
        n == m,
        s == t,
{
    let dash = "-"@;
    lemma_dec_digits(p as nat);
    lemma_dec_digits(q as nat);
    lemma_dec_digits(n as nat);
    lemma_dec_digits(m as nat);
    let a = text::dec(n as nat) + dash + text::dec(s as nat);
    let b = text::dec(m as nat) + dash + text::dec(t as nat);
    assert(unique_name(p, n, s) =~= text::dec(p as nat) + dash + a);
    assert(unique_name(q, m, t) =~= text::dec(q as nat) + dash + b);
    lemma_up_to_dash(text::dec(p as nat), a, text::dec(q as nat), b);
    lemma_up_to_dash(
        text::dec(n as nat),
        text::dec(s as nat),
        text::dec(m as nat),
        text::dec(t as nat),
    );
    text::lemma_dec_injective(p as nat, q as nat);
    text::lemma_dec_injective(n as nat, m as nat);
    text::lemma_dec_injective(s as nat, t as nat);
}

// ── What goes through ───────────────────────────────────────────────

/// Whether the way of one folder starts with the way of another.
pub open spec fn starts_with(way: Seq<Seq<u8>>, start: Seq<Seq<u8>>) -> bool {
    start.len() <= way.len() && forall|i: int| 0 <= i < start.len() ==> #[trigger] start[i] == way[i]
}

proof fn lemma_within(a: Seq<u8>, b: Seq<u8>)
    ensures
        paths::within(a, b) <==> starts_with(paths::parts(a), paths::parts(b)),
{
    let (p, q) = (paths::parts(a), paths::parts(b));
    if starts_with(p, q) {
        assert(q =~= p.subrange(0, q.len() as int));
    }
    if paths::within(a, b) {
        assert forall|i: int| 0 <= i < q.len() implies #[trigger] q[i] == p[i] by {
            assert(q[i] == p.subrange(0, q.len() as int)[i]);
        }
    }
}

/// What can go, goes, under its own name: an item that has a name, to a folder that is there and is
/// not the one it is in, where nothing of that name is. A folder goes anywhere but to itself and to
/// what lies below it; anything else goes anywhere.
pub proof fn law_what_can_go_goes(src: Seq<u8>, look: Lookup, name: Seq<u8>)
    requires
        paths::leaf(src) == Some(name),
        look.destination is Ok,
        look.kind is Ok,
        look.source_parent is Ok,
        !look.taken,
        paths::parts(paths::joined(look.source_parent->Ok_0@, name)) != paths::parts(
            paths::joined(look.destination->Ok_0@, name),
        ),
        look.kind->Ok_0 == Kind::Folder ==> look.source is Ok && !starts_with(
            paths::parts(look.destination->Ok_0@),
            paths::parts(look.source->Ok_0@),
        ),
    ensures
        transfer_of(src, false, look) == Ok::<(Seq<u8>, Seq<u8>), Seq<char>>(
            (look.destination->Ok_0@, paths::joined(look.destination->Ok_0@, name)),
        ),
{
    if look.kind->Ok_0 == Kind::Folder {
        lemma_within(look.destination->Ok_0@, look.source->Ok_0@);
    }
}

/// A folder may move up: to any folder that it lies in, however far above, other than the one it is
/// in already.
pub proof fn law_a_folder_may_move_up(src: Seq<u8>, look: Lookup, name: Seq<u8>)
    requires
        paths::leaf(src) == Some(name),
        look.destination is Ok,
        look.kind == Ok::<Kind, String>(Kind::Folder),
        look.source_parent is Ok,
        look.source is Ok,
        !look.taken,
        paths::names_a_part(name),
        paths::parts(look.source_parent->Ok_0@) != paths::parts(look.destination->Ok_0@),
        paths::within(look.source->Ok_0@, look.destination->Ok_0@),
        !paths::within(look.destination->Ok_0@, look.source->Ok_0@),
    ensures
        transfer_of(src, false, look) is Ok,
{
    let from = look.source_parent->Ok_0@;
    let to = look.destination->Ok_0@;
    paths::law_a_name_in_a_folder_is_one_part_more(from, name);
    paths::law_a_name_in_a_folder_is_one_part_more(to, name);
    if paths::parts(from).push(name) == paths::parts(to).push(name) {
        assert(paths::parts(from) =~= paths::parts(from).push(name).drop_last());
        assert(paths::parts(to) =~= paths::parts(to).push(name).drop_last());
    }
    lemma_within(to, look.source->Ok_0@);
    law_what_can_go_goes(src, look, name);
}

/// A transfer is refused for a reason, and what is said is the first that holds: it was cancelled,
/// there is nothing to name, something could not be looked up, the item is there already, something
/// else is, or a folder would go into itself.
pub proof fn law_a_transfer_is_refused_for_a_reason(src: Seq<u8>, cancel: bool, look: Lookup)
    requires
        transfer_of(src, cancel, look) is Err,
    ensures
        ({
            let name = paths::leaf(src)->0;
            let why = transfer_of(src, cancel, look)->Err_0;
            let looked = look.destination is Ok && look.kind is Ok && look.source_parent is Ok;
            let to = paths::joined(look.destination->Ok_0@, name);
            ||| cancel && why
                == "Canceled. Completed items are kept; the current copy was removed."@
            ||| paths::leaf(src) is None && why == "Cannot transfer a filesystem root"@
            ||| look.destination is Err && why == look.destination->Err_0@
            ||| look.destination is Ok && look.kind is Err && why == look.kind->Err_0@
            ||| look.destination is Ok && look.kind is Ok && look.source_parent is Err && why
                == look.source_parent->Err_0@
            ||| looked && paths::parts(paths::joined(look.source_parent->Ok_0@, name))
                == paths::parts(to) && why == "Source and destination are the same item."@
            ||| looked && look.taken && why == caller_identity::lossy(to)
                + " already exists. Rename it or choose another folder; nothing was replaced."@
            ||| looked && !look.taken && look.kind->Ok_0 == Kind::Folder && look.source is Err
                && why == look.source->Err_0@
            ||| looked && !look.taken && look.kind->Ok_0 == Kind::Folder && look.source is Ok
                && starts_with(
                paths::parts(look.destination->Ok_0@),
                paths::parts(look.source->Ok_0@),
            ) && why == "A folder cannot be placed inside itself."@
        }),
{
    if look.source is Ok && look.destination is Ok {
        lemma_within(look.destination->Ok_0@, look.source->Ok_0@);
    }
}

/// Whatever has a name and lies apart from the trash can be moved to it, under the folder it is in.
pub proof fn law_what_lies_apart_can_be_trashed(
    src: Seq<u8>,
    root: Seq<u8>,
    folder: Seq<u8>,
    name: Seq<u8>,
)
    requires
        paths::leaf(src) == Some(name),
        ({
            let source = paths::parts(paths::joined(folder, name));
            let trash = paths::parts(root);
            exists|i: int|
                0 <= i < source.len() && i < trash.len() && #[trigger] source[i] != trash[i]
        }),
    ensures
        discard_of(src, root, Ok(folder)) == Ok::<Seq<u8>, Seq<char>>(paths::joined(folder, name)),
{
    lemma_within(paths::joined(folder, name), root);
    lemma_within(root, paths::joined(folder, name));
}

/// The trash folder, what is in it and what it is in stay where they are.
pub proof fn law_the_trash_stays(src: Seq<u8>, root: Seq<u8>, folder: Seq<u8>, name: Seq<u8>)
    requires
        paths::leaf(src) == Some(name),
        ({
            let source = paths::parts(paths::joined(folder, name));
            starts_with(source, paths::parts(root)) || starts_with(paths::parts(root), source)
        }),
    ensures
        discard_of(src, root, Ok(folder)) == Err::<Seq<u8>, Seq<char>>(
            "The Trash storage folder cannot be moved to Trash."@,
        ),
{
    lemma_within(paths::joined(folder, name), root);
    lemma_within(root, paths::joined(folder, name));
}

/// Anything without a separator and without NUL names a file, dots in it or not, except the two
/// names every folder has for itself and for the one above it, and nothing at all.
pub proof fn law_what_names_a_file(s: Seq<char>)
    ensures
        is_name(s) <==> {
            &&& forall|i: int| 0 <= i < s.len() ==> #[trigger] s[i] != '/' && s[i] != '\0'
            &&& s.len() >= 3 || s.len() == 2 && (s[0] != '.' || s[1] != '.') || s.len() == 1 && s[0]
                != '.'
        },
{
    reveal_strlit(".");
    reveal_strlit("..");
    if s.len() == 1 && s[0] == '.' {
        assert(s =~= "."@);
    }
    if s.len() == 2 && s[0] == '.' && s[1] == '.' {
        assert(s =~= ".."@);
    }
    if exists|i: int| 0 <= i < s.len() && (#[trigger] s[i] == '/' || s[i] == '\0') {
        let i = choose|i: int| 0 <= i < s.len() && (#[trigger] s[i] == '/' || s[i] == '\0');
        assert(s.contains(s[i]));
    }
}

/// Folders may be nested 128 deep and no deeper, and a copy that nobody cancels goes on until
/// nothing is left of it: what was not looked at is, a folder gives its next entry, a file is read.
pub proof fn law_a_copy_goes_on(s: Seq<Todo>)
    ensures
        s.len() == 0 ==> order_of(s, false) is Done,
        s.len() > 0 && s.last().step is Folder ==> order_of(s, false) is NextEntry,
        s.len() > 0 && s.last().step is File ==> order_of(s, false) is ReadSome,
        s.len() > 0 && s.last().step is Node ==> {
            &&& s.len() - 1 <= 128 ==> order_of(s, false) is Inspect
            &&& s.len() - 1 > 128 ==> order_of(s, false) == Ordered::Fail(
                "Folder nesting exceeds 128 levels."@,
            )
        },
{
}

/// One bad entry spoils the list, and only that: the trash can be listed exactly where every entry
/// in it can be read, is text and was at a place of its own.
pub proof fn law_the_trash_lists_what_can_be_read(found: Seq<Result<Found, String>>, n: int)
    requires
        0 <= n <= found.len(),
    ensures
        listed_to(found, n) is Ok <==> forall|i: int|
            0 <= i < n ==> {
                let f = (#[trigger] found[i])->Ok_0;
                &&& found[i] is Ok
                &&& f.id is Some
                &&& f.record is Ok
                &&& path_in(f.record->Ok_0@) is Ok
                &&& path_in(f.record->Ok_0@)->Ok_0.len() > 0
                &&& path_in(f.record->Ok_0@)->Ok_0[0] == 47
            },
    decreases n,
{
    if n > 0 {
        law_the_trash_lists_what_can_be_read(found, n - 1);
    }
}

/// What is added to a list in order goes behind everything that does not come after it, so that
/// items of one name stay in the order they were read in, and everything else stays where it was.
pub proof fn law_an_item_goes_behind_its_equals(items: Seq<Trashed>, item: Trashed) -> (k: int)
    requires
        ordered(items),
    ensures
        0 <= k <= items.len(),
        settled(items, item) == items.take(k).push(item) + items.skip(k),
        forall|i: int|
            0 <= i < k ==> !json::before(text::small(item.name), text::small((#[trigger] items[i]).name)),
        forall|i: int|
            k <= i < items.len() ==> json::before(
                text::small(item.name),
                text::small((#[trigger] items[i]).name),
            ),
{
    lemma_seat(items, item, 0);
    let k = seat(items, item, 0);
    assert(settled(items, item) =~= items.take(k).push(item) + items.skip(k));
    assert forall|i: int| k <= i < items.len() implies json::before(
        text::small(item.name),
        text::small((#[trigger] items[i]).name),
    ) by {
        let (x, a, b) = (order_key(item), order_key(items[k]), order_key(items[i]));
        if i > k {
            assert(!json::before(order_key(items[i]), order_key(items[k])));
            json::lemma_before_total(a, b);
            if json::before(a, b) {
                json::lemma_before_trans(x, a, b);
            }
        }
    }
    k
}

/// What is decided of an item that can go is that it goes, under its own name, and is moved where
/// it was cut and copied where it was not.
pub proof fn law_a_transfer_that_can_be_made_is(
    src: &[u8],
    cut: bool,
    look: Lookup,
    name: Seq<u8>,
    r: Result<Transfer, String>,
)
    requires
        call_ensures(transfer, (src, cut, false, &look), r),
        paths::leaf(src@) == Some(name),
        look.destination is Ok,
        look.kind is Ok,
        look.source_parent is Ok,
        !look.taken,
        paths::parts(paths::joined(look.source_parent->Ok_0@, name)) != paths::parts(
            paths::joined(look.destination->Ok_0@, name),
        ),
        look.kind->Ok_0 == Kind::Folder ==> look.source is Ok && !starts_with(
            paths::parts(look.destination->Ok_0@),
            paths::parts(look.source->Ok_0@),
        ),
    ensures
        r matches Ok(t) && t.parent@ == look.destination->Ok_0@ && t.to@ == paths::joined(
            look.destination->Ok_0@,
            name,
        ) && t.moves == cut,
{
    law_what_can_go_goes(src@, look, name);
}

/// What a copy came to is what went wrong in it, and what could not be tidied up behind it besides.
pub proof fn law_what_a_copy_came_to(
    result: Result<(), String>,
    left: Option<Result<(), String>>,
    r: Result<(), String>,
)
    requires
        call_ensures(copy_outcome, (result, left), r),
    ensures
        r is Ok <==> result is Ok,
        result is Err && !(left matches Some(Err(_))) ==> r->Err_0@ == result->Err_0@,
        result is Err && (left matches Some(Err(_))) ==> r->Err_0@ == result->Err_0@
            + "; temporary copy could not be removed: "@ + (left->0)->Err_0@,
{
}

/// A new file stands in the folder it was made in, under the name it was given.
pub proof fn law_where_a_new_file_stands(dir: &[u8], value: &str, r: Result<Vec<u8>, String>)
    requires
        call_ensures(new_entry, (dir, value), r),
    ensures
        r is Ok <==> is_name(value@),
        r matches Ok(p) ==> p@ == paths::joined(dir@, vstd::utf8::encode_utf8(value@)),
{
}

/// A move that would cross file systems says so, and any other says what went wrong where.
pub proof fn law_what_a_refused_move_says(to: &[u8], across: bool, why: &str, r: String)
    requires
        call_ensures(rename_refused, (to, across, why), r),
    ensures
        across ==> r@
            == "Cross-filesystem moves are not supported. The source was left in place."@,
        !across ==> r@ == caller_identity::lossy(to@) + ": "@ + why@,
{
}

/// A link is made as a link and is done with; a folder and a file are made and gone on with; and
/// anything else is not copied. What waits behind it stays as it was.
pub proof fn law_what_is_made_of_an_item(copy: &mut Copying, kind: Kind, r: Result<Make, String>)
    requires
        call_ensures(Copying::inspected, (copy, kind), r),
        old(copy)@.len() > 0,
    ensures
        kind == Kind::Link <==> r == Ok::<Make, String>(Make::Link),
        kind == Kind::Folder <==> r == Ok::<Make, String>(Make::Folder),
        kind == Kind::File <==> r == Ok::<Make, String>(Make::File),
        kind == Kind::Other <==> r is Err,
        kind == Kind::Link || kind == Kind::Other ==> final(copy)@ == old(copy)@.drop_last(),
        kind == Kind::Folder || kind == Kind::File ==> final(copy)@.drop_last() == old(copy)@.drop_last() && final(copy)@.last().src == old(copy)@.last().src && final(copy)@.last().dst == old(copy)@.last().dst,
        kind == Kind::Folder ==> order_of(final(copy)@, false) is NextEntry,
        kind == Kind::File ==> order_of(final(copy)@, false) is ReadSome,
{
}

/// Every entry of a folder is copied under the folder's copy, by its own name, before the folder is
/// done; and a folder or a file that is done gives way to what waits behind it.
pub proof fn law_what_a_copy_goes_on_with(
    folder: &mut Copying,
    file: &mut Copying,
    name: Option<&[u8]>,
    bytes: usize,
    r: Option<Finished>,
    q: Option<Finished>,
)
    requires
        call_ensures(Copying::entry, (folder, name), r),
        call_ensures(Copying::read, (file, bytes), q),
        old(folder)@.len() > 0,
        old(file)@.len() > 0,
    ensures
        name matches Some(n) ==> r is None && final(folder)@.drop_last() == old(folder)@ && final(folder)@.last().src == paths::joined(old(folder)@.last().src, n@) && final(folder)@.last().dst
            == paths::joined(old(folder)@.last().dst, n@),
        name is None ==> r is Some && r->0.src@ == old(folder)@.last().src && r->0.dst@ == old(folder)@.last().dst && final(folder)@ == old(folder)@.drop_last(),
        bytes > 0 ==> q is None && final(file)@ == old(file)@,
        bytes == 0 ==> q is Some && q->0.src@ == old(file)@.last().src && q->0.dst@ == old(file)@.last().dst && final(file)@ == old(file)@.drop_last(),
{
}

/// What was thrown away is listed under its own name where it came from a whole path, and where it
/// did not there is nothing to put it back to.
pub proof fn law_what_the_trash_tells_of_an_item(
    id: Seq<char>,
    original: Seq<u8>,
    stored: Seq<u8>,
)
    ensures
        item_for(id, original, stored) is Ok <==> original.len() > 0 && original[0] == 47,
        item_for(id, original, stored) matches Ok(t) ==> t.id == id && t.original == original
            && t.stored == stored && t.name == shown_name(original),
{
}

/// A transfer goes under the source's own name, into the folder that is named; it is staged beside
/// where it goes; and the trash is kept below where a person's data goes.
pub proof fn law_where_things_go(
    src: &[u8],
    destination: &[u8],
    to: Option<Vec<u8>>,
    unique: &str,
    staged: Vec<u8>,
    data_home: Option<&[u8]>,
    home: &[u8],
    trash: Vec<u8>,
)
    requires
        call_ensures(target, (src, destination), to),
        call_ensures(stage, (destination, unique), staged),
        call_ensures(trash_root, (data_home, home), trash),
    ensures
        to is Some <==> paths::leaf(src@) is Some,
        to matches Some(t) ==> t@ == paths::joined(destination@, paths::leaf(src@)->0),
        staged@ == paths::joined(
            destination@,
            vstd::utf8::encode_utf8(".yantrik-copy-"@ + unique@),
        ),
        data_home is Some && data_home->0@.len() > 0 && data_home->0@[0] == 47 ==> trash@
            == paths::joined(data_home->0@, vstd::utf8::encode_utf8("yantrik/trash-v2"@)),
        data_home is None || data_home->0@.len() == 0 || data_home->0@[0] != 47 ==> trash@
            == paths::joined(
            paths::joined(home@, vstd::utf8::encode_utf8(".local/share"@)),
            vstd::utf8::encode_utf8("yantrik/trash-v2"@),
        ),
{
}

/// A name is taken as it is or not at all.
pub proof fn law_a_name_is_taken_as_it_is(value: &str, r: Result<&str, String>)
    requires
        call_ensures(name, (value,), r),
    ensures
        r is Ok <==> is_name(value@),
        r matches Ok(v) ==> v@ == value@,
        value@.contains('/') || value@.len() == 0 || value@ == "."@ || value@ == ".."@ ==> r is Err,
{
}

} // verus!
