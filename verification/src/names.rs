//! Names on disk: which characters a file name may hold, what a remote entry
//! is called locally, and where it goes.

use vstd::prelude::*;
use vstd::string::StringExecFns;
use crate::entry::{EntryView, FileTask, RemoteEntry, TaskView};
use crate::text::{chars_of, push_char};

verus! {

/// Whether `c` must not appear in a file name. Besides the characters that
/// common filesystems reserve, three more are treated alike: U+201A, U+00C4
/// and U+00F9.
pub open spec fn is_illegal(c: char) -> bool {
    c == '/' || c == '\\' || c == ':' || c == '*' || c == '?' || c == '\u{201a}' || c == '\u{c4}'
        || c == '\u{f9}' || c == '"' || c == '<' || c == '>' || c == '|'
}

/// `s` with a blank in place of each illegal character.
pub open spec fn sanitized(s: Seq<char>) -> Seq<char> {
    Seq::new(s.len(), |i: int| if is_illegal(s[i]) { ' ' } else { s[i] })
}

/// A sanitized name holds no illegal character, so in particular no path
/// separator, and sanitizing it again changes nothing.
pub proof fn lemma_sanitized_is_clean(s: Seq<char>)
    ensures
        sanitized(s).len() == s.len(),
        forall|i: int| 0 <= i < s.len() ==> !is_illegal(#[trigger] sanitized(s)[i]),
        sanitized(sanitized(s)) == sanitized(s),
{
}

/// Sanitizing goes character by character, so it distributes over joining.
pub proof fn lemma_sanitized_concat(a: Seq<char>, b: Seq<char>)
    ensures
        sanitized(a + b) == sanitized(a) + sanitized(b),
{
}

fn illegal(c: char) -> (r: bool)
    ensures
        r == is_illegal(c),
{
    c == '/' || c == '\\' || c == ':' || c == '*' || c == '?' || c == '\u{201a}' || c == '\u{c4}'
        || c == '\u{f9}' || c == '"' || c == '<' || c == '>' || c == '|'
}

fn push_sanitized(out: &mut String, v: &Vec<char>)
    ensures
        final(out)@ == old(out)@ + sanitized(v@),
{
    let mut i: usize = 0;
    while i < v.len()
        invariant
            i <= v.len(),
            out@ == old(out)@ + sanitized(v@).take(i as int),
        decreases v.len() - i,
    {
        let c = v[i];
        if illegal(c) {
            push_char(out, ' ');
        } else {
            push_char(out, c);
        }
        i += 1;
    }
}

/// Makes a name safe for the filesystem: each illegal character becomes a
/// blank, everything else stays.
pub fn filename_filter(name: String) -> (r: String)
    ensures
        r@ == sanitized(name@),
{
    let v = chars_of(name.as_str());
    let mut out = String::new();
    push_sanitized(&mut out, &v);
    out
}

/// Whether `needle` stands in `hay` from position `i` on.
pub open spec fn occurs_at(needle: Seq<char>, hay: Seq<char>, i: int) -> bool {
    0 <= i && i + needle.len() <= hay.len() && hay.subrange(i, i + needle.len()) == needle
}

/// Whether `needle` stands somewhere in `hay`, unbroken. The empty text
/// stands in every text.
pub open spec fn occurs_in(needle: Seq<char>, hay: Seq<char>) -> bool {
    exists|i: int| occurs_at(needle, hay, i)
}

fn matches_at(hay: &Vec<char>, needle: &Vec<char>, at: usize) -> (r: bool)
    requires
        at + needle.len() <= hay.len(),
    ensures
        r == occurs_at(needle@, hay@, at as int),
{
    let mut k: usize = 0;
    while k < needle.len()
        invariant
            at + needle.len() <= hay.len(),
            k <= needle.len(),
            forall|j: int| 0 <= j < k ==> hay@[at + j] == needle@[j],
        decreases needle.len() - k,
    {
        if hay[at + k] != needle[k] {
            return false;
        }
        k += 1;
    }
    assert(hay@.subrange(at as int, at + needle.len()) =~= needle@);
    true
}

fn occurs(hay: &Vec<char>, needle: &Vec<char>) -> (r: bool)
    ensures
        r == occurs_in(needle@, hay@),
{
    if needle.len() == 0 {
        assert(hay@.subrange(0, 0) =~= needle@);
        assert(occurs_at(needle@, hay@, 0));
        return true;
    }
    if needle.len() > hay.len() {
        return false;
    }
    let last = hay.len() - needle.len();
    let mut i: usize = 0;
    while i <= last
        invariant
            needle.len() > 0,
            last == hay.len() - needle.len(),
            i <= last + 1,
            forall|k: int| 0 <= k < i ==> !occurs_at(needle@, hay@, k),
        decreases last + 1 - i,
    {
        if matches_at(hay, needle, i) {
            return true;
        }
        i += 1;
    }
    false
}

/// Whether `needle` occurs in `hay` as an unbroken run of characters.
pub fn contains_text(hay: &str, needle: &str) -> (r: bool)
    ensures
        r == occurs_in(needle@, hay@),
{
    let h = chars_of(hay);
    let n = chars_of(needle);
    occurs(&h, &n)
}

/// The name a remote file has before it is sanitized: its title where the
/// title already holds the extension somewhere, else title, dot, extension.
pub open spec fn raw_file_name(title: Seq<char>, extension: Seq<char>) -> Seq<char> {
    if occurs_in(extension, title) {
        title
    } else {
        title + seq!['.'] + extension
    }
}

/// The name under which a remote file is stored.
pub open spec fn file_name_of(title: Seq<char>, extension: Seq<char>) -> Seq<char> {
    sanitized(raw_file_name(title, extension))
}

/// The directory made for a remote directory called `title` that was found
/// under `parent`.
pub open spec fn child_dir_of(parent: Seq<char>, title: Seq<char>) -> Seq<char> {
    parent + seq!['/'] + sanitized(title)
}

/// Where a file called `name` lies inside directory `dir`.
pub open spec fn path_in(dir: Seq<char>, name: Seq<char>) -> Seq<char> {
    dir + seq!['/'] + name
}

/// Works out the on-disk name of a remote file from its title and extension.
pub fn resolve_filename(title: &str, extension: &str) -> (r: String)
    ensures
        r@ == file_name_of(title@, extension@),
{
    let t = chars_of(title);
    let e = chars_of(extension);
    let mut out = String::new();
    push_sanitized(&mut out, &t);
    if !occurs(&t, &e) {
        push_char(&mut out, '.');
        push_sanitized(&mut out, &e);
        proof {
            lemma_sanitized_concat(t@ + seq!['.'], e@);
            lemma_sanitized_concat(t@, seq!['.']);
        }
    }
    out
}

/// Names the local directory for a remote directory `title` found under
/// `parent`: the parent, a slash, the sanitized title.
pub fn child_dir(parent: &str, title: &str) -> (r: String)
    ensures
        r@ == child_dir_of(parent@, title@),
{
    let t = chars_of(title);
    let mut out = String::new();
    out.append(parent);
    push_char(&mut out, '/');
    push_sanitized(&mut out, &t);
    out
}

impl EntryView {
    /// The name under which the entry is stored.
    pub open spec fn file_name(self) -> Seq<char> {
        file_name_of(self.title, self.extension)
    }
}

impl TaskView {
    /// Where the task's file lies, relative to the course root. Two tasks
    /// with the same path write the same file: the later one wins.
    pub open spec fn local_path(self) -> Seq<char> {
        path_in(self.dir, self.entry.file_name())
    }
}

impl RemoteEntry {
    /// The name under which the entry is stored.
    pub fn file_name(&self) -> (r: String)
        ensures
            r@ == self@.file_name(),
    {
        resolve_filename(self.title.as_str(), self.extension.as_str())
    }
}

impl FileTask {
    /// Where the task's file lies, relative to the course root.
    pub fn local_path(&self) -> (r: String)
        ensures
            r@ == self@.local_path(),
    {
        let name = self.entry.file_name();
        let mut out = self.local_relative_dir.clone();
        push_char(&mut out, '/');
        out.append(name.as_str());
        out
    }
}

} // verus!
