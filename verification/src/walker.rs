//! Deciding, entry by entry, what a directory walk visits.
//!
//! The walk itself reads the file system and happens elsewhere. It reports each entry it
//! comes to; the decision below says whether the entry is searched, descended into or
//! skipped. A directory that is skipped is not read, so nothing beneath it is visited. A
//! walk that follows links also keeps the set of directories it has entered, so that links
//! that run in a circle do not lead it round again.

use crate::options::texts;
use crate::options::OptionsView;
use crate::options::ResolvedOptions;
use vstd::prelude::*;

verus! {

/// The compiled glob matcher of the `ignore` crate; nothing inside it is visible here.
#[verifier::external_type_specification]
#[verifier::external_body]
pub struct ExGitignore(ignore::gitignore::Gitignore);

/// Whether the `ignore` crate accepts `pattern` as one line of globs.
pub uninterp spec fn glob_parses(pattern: Seq<char>) -> bool;

/// The line that a glob matcher was built from.
pub uninterp spec fn glob_source(matcher: ignore::gitignore::Gitignore) -> Seq<char>;

/// Whether a matcher built from the one line `pattern` reports `path` as ignored. The path is
/// relative, with `/` between its names; `is_dir` says whether it names a directory.
pub uninterp spec fn glob_ignores(pattern: Seq<char>, path: Seq<char>, is_dir: bool) -> bool;

/// Builds a matcher from one line with `GitignoreBuilder::add_line` and
/// `GitignoreBuilder::build` of `ignore::gitignore`, rooted at the empty path. Trusted: a
/// matcher comes back exactly where the line parses, and it is built from that line.
#[verifier::external_body]
fn build_glob(pattern: &str) -> (built: Option<ignore::gitignore::Gitignore>)
    ensures
        built is Some <==> glob_parses(pattern@),
        built matches Some(matcher) ==> glob_source(matcher) == pattern@,
{
    let mut builder = ignore::gitignore::GitignoreBuilder::new("");
    match builder.add_line(None, pattern) {
        Ok(_) => builder.build().ok(),
        Err(_) => None,
    }
}

/// Calls `Gitignore::matched` of `ignore::gitignore` and asks whether the answer is
/// `Ignore`. Trusted: the answer is the one that `glob_ignores` names for the line the
/// matcher was built from.
#[verifier::external_body]
fn glob_matched(matcher: &ignore::gitignore::Gitignore, path: &str, is_dir: bool) -> (ignored: bool)
    ensures
        ignored == glob_ignores(glob_source(*matcher), path@, is_dir),
{
    matcher.matched(path, is_dir).is_ignore()
}

/// Whether one ignore pattern prunes a path: the pattern parses and its matcher reports the
/// path as ignored. A pattern that does not parse prunes nothing.
pub open spec fn pattern_prunes(pattern: Seq<char>, path: Seq<char>, is_dir: bool) -> bool {
    glob_parses(pattern) && glob_ignores(pattern, path, is_dir)
}

/// Whether any of the patterns prunes a path.
pub open spec fn any_prunes(patterns: Seq<Seq<char>>, path: Seq<char>, is_dir: bool) -> bool {
    exists|i: int| 0 <= i < patterns.len() && pattern_prunes(#[trigger] patterns[i], path, is_dir)
}

/// One ignore pattern with the matcher built from it, if it parses.
struct IgnoreSlot {
    pattern: String,
    matcher: Option<ignore::gitignore::Gitignore>,
}

impl IgnoreSlot {
    spec fn consistent(self) -> bool {
        &&& self.matcher is Some <==> glob_parses(self.pattern@)
        &&& self.matcher matches Some(matcher) ==> glob_source(matcher) == self.pattern@
    }
}

/// The ignore patterns of a search, compiled once.
pub struct IgnoreSet {
    slots: Vec<IgnoreSlot>,
}

impl View for IgnoreSet {
    type V = Seq<Seq<char>>;

    /// The patterns the set was compiled from, in their order.
    closed spec fn view(&self) -> Seq<Seq<char>> {
        Seq::new(self.slots@.len(), |i: int| self.slots@[i].pattern@)
    }
}

impl IgnoreSet {
    #[verifier::type_invariant]
    spec fn consistent(self) -> bool {
        forall|i: int| 0 <= i < self.slots@.len() ==> (#[trigger] self.slots@[i]).consistent()
    }

    /// Compiles the patterns, each on its own.
    pub fn compile(patterns: &Vec<String>) -> (set: IgnoreSet)
        ensures
            set@ == texts(patterns@),
    {
        let mut slots: Vec<IgnoreSlot> = Vec::new();
        let mut i: usize = 0;
        while i < patterns.len()
            invariant
                i <= patterns@.len(),
                slots@.len() == i,
                forall|k: int| 0 <= k < i ==> (#[trigger] slots@[k]).consistent(),
                forall|k: int| 0 <= k < i ==> (#[trigger] slots@[k]).pattern@ == patterns@[k]@,
            decreases patterns@.len() - i,
        {
            let pattern = patterns[i].clone();
            let matcher = build_glob(pattern.as_str());
            slots.push(IgnoreSlot { pattern, matcher });
            i += 1;
        }
        let set = IgnoreSet { slots };
        assert(set@ =~= texts(patterns@));
        set
    }

    /// Whether any pattern of the set prunes the path.
    pub fn prunes(&self, path: &str, is_dir: bool) -> (pruned: bool)
        ensures
            pruned == any_prunes(self@, path@, is_dir),
    {
        proof {
            use_type_invariant(self);
        }
        let mut i: usize = 0;
        while i < self.slots.len()
            invariant
                i <= self.slots@.len(),
                self.consistent(),
                forall|k: int| 0 <= k < i ==> !pattern_prunes(#[trigger] self@[k], path@, is_dir),
            decreases self.slots@.len() - i,
        {
            let hit = match &self.slots[i].matcher {
                Some(matcher) => glob_matched(matcher, path, is_dir),
                None => false,
            };
            assert(self.slots@[i as int].consistent());
            assert(self@[i as int] == self.slots@[i as int].pattern@);
            if hit {
                return true;
            }
            i += 1;
        }
        false
    }
}

/// The directories that a walk has entered, each named by its canonical path. A walk that
/// follows links asks before it reads a directory, and so never reads one twice, however
/// the links run.
pub struct Visited {
    seen: Vec<String>,
}

impl View for Visited {
    type V = Set<Seq<char>>;

    /// The canonical paths entered so far.
    closed spec fn view(&self) -> Set<Seq<char>> {
        Set::new(|path: Seq<char>| exists|i: int| 0 <= i < self.seen@.len() && self.seen@[i]@ == path)
    }
}

impl Visited {
    /// No directory entered yet.
    pub fn new() -> (visited: Visited)
        ensures
            visited@ == Set::<Seq<char>>::empty(),
    {
        let visited = Visited { seen: Vec::new() };
        assert(visited@ =~= Set::<Seq<char>>::empty());
        visited
    }

    /// Enters a directory. Tells whether it is entered for the first time; a directory that
    /// was entered before is not to be read again.
    pub fn enter(&mut self, canonical_path: &str) -> (first_time: bool)
        ensures
            first_time == !old(self)@.contains(canonical_path@),
            final(self)@ == old(self)@.insert(canonical_path@),
    {
        let path = String::from_str(canonical_path);
        let mut i: usize = 0;
        while i < self.seen.len()
            invariant
                i <= self.seen@.len(),
                self.seen@ == old(self).seen@,
                path@ == canonical_path@,
                forall|k: int| 0 <= k < i ==> self.seen@[k]@ != path@,
            decreases self.seen@.len() - i,
        {
            if self.seen[i] == path {
                assert(old(self)@.contains(canonical_path@));
                assert(self@ =~= old(self)@.insert(canonical_path@));
                return false;
            }
            i += 1;
        }
        self.seen.push(path);
        assert(self.seen@[old(self).seen@.len() as int]@ == canonical_path@);
        assert(self@ =~= old(self)@.insert(canonical_path@)) by {
            assert forall|other: Seq<char>| old(self)@.contains(other) implies self@.contains(
                other,
            ) by {
                let k = choose|k: int| 0 <= k < old(self).seen@.len() && old(self).seen@[k]@ == other;
                assert(self.seen@[k]@ == other);
            }
            assert forall|other: Seq<char>| self@.contains(other) implies old(self)@.insert(
                canonical_path@,
            ).contains(other) by {
                let k = choose|k: int| 0 <= k < self.seen@.len() && self.seen@[k]@ == other;
                if k < old(self).seen@.len() {
                    assert(old(self).seen@[k]@ == other);
                }
            }
        }
        true
    }
}

/// What an entry is, the target of a symbolic link counting for the link.
#[derive(Clone, Copy, Debug, PartialEq, Eq, Structural)]
pub enum EntryKind {
    /// A regular file.
    File,
    /// A directory.
    Directory,
    /// Anything else: a device, a socket, a link that leads nowhere.
    Other,
}

/// One entry that a walk came to.
#[derive(Debug)]
pub struct WalkEntry {
    /// The path that records of this entry carry.
    pub path: String,
    /// The path from the root to the entry, with `/` between its names; empty for the root.
    pub relative_path: String,
    /// The last name of the path.
    pub name: String,
    /// How many names lead from the root to the entry: 0 for the root itself, 1 for what
    /// lies directly in it.
    pub depth: usize,
    /// Whether the entry is a symbolic link.
    pub is_symlink: bool,
    /// What the entry is; for a symbolic link, what it points to.
    pub kind: EntryKind,
}

/// An entry as plain mathematical values.
pub struct EntryView {
    pub path: Seq<char>,
    pub relative_path: Seq<char>,
    pub name: Seq<char>,
    pub depth: int,
    pub is_symlink: bool,
    pub kind: EntryKind,
}

impl View for WalkEntry {
    type V = EntryView;

    open spec fn view(&self) -> EntryView {
        EntryView {
            path: self.path@,
            relative_path: self.relative_path@,
            name: self.name@,
            depth: self.depth as int,
            is_symlink: self.is_symlink,
            kind: self.kind,
        }
    }
}

/// What the walk does with an entry.
#[derive(Clone, Copy, Debug, PartialEq, Eq, Structural)]
pub enum Admission {
    /// Leave the entry out, and with a directory all that lies beneath it.
    Skip,
    /// Read the directory and report what lies in it.
    Descend,
    /// Hand the file to the scanner.
    Yield,
}

/// A name is hidden where it starts with a dot.
pub open spec fn is_hidden_name(name: Seq<char>) -> bool {
    name.len() > 0 && name[0] == '.'
}

/// Whether an entry lies within the depth bound. The bound counts directory levels below
/// the root, what lies directly in the root being at level 0; the root itself always is
/// within it.
pub open spec fn within_depth(depth: int, max_depth: Option<u32>) -> bool {
    match max_depth {
        Some(deepest) => depth <= deepest + 1,
        None => true,
    }
}

/// Whether the ignore patterns prune an entry: one of them matches its path from the root
/// or its name.
pub open spec fn entry_pruned(patterns: Seq<Seq<char>>, entry: EntryView) -> bool {
    let is_dir = entry.kind == EntryKind::Directory;
    any_prunes(patterns, entry.relative_path, is_dir) || any_prunes(patterns, entry.name, is_dir)
}

/// What the walk does with an entry that was not filtered out: a file is searched, a
/// directory is read, anything else is left out.
pub open spec fn admission_by_kind(kind: EntryKind) -> Admission {
    match kind {
        EntryKind::File => Admission::Yield,
        EntryKind::Directory => Admission::Descend,
        EntryKind::Other => Admission::Skip,
    }
}

/// The decision for an entry, given whether the ignore patterns prune it. The root itself is
/// never filtered. Below it an entry is skipped where it lies too deep, is hidden while
/// hidden entries are not asked for, is a symbolic link while links are not followed, or is
/// pruned.
pub open spec fn decision(entry: EntryView, o: OptionsView, pruned: bool) -> Admission {
    if entry.depth == 0 {
        admission_by_kind(entry.kind)
    } else if !within_depth(entry.depth, o.max_depth) {
        Admission::Skip
    } else if is_hidden_name(entry.name) && !o.hidden {
        Admission::Skip
    } else if entry.is_symlink && !o.follow_links {
        Admission::Skip
    } else if pruned {
        Admission::Skip
    } else {
        admission_by_kind(entry.kind)
    }
}

/// The decision for an entry under the options.
pub open spec fn admission(entry: EntryView, o: OptionsView) -> Admission {
    decision(entry, o, entry_pruned(o.ignore_patterns, entry))
}

/// Tells whether a name is hidden.
pub fn is_hidden(name: &str) -> (hidden: bool)
    ensures
        hidden == is_hidden_name(name@),
{
    !name.is_empty() && name.get_char(0) == '.'
}

/// Tells whether an entry lies within the depth bound.
pub fn in_depth(depth: usize, max_depth: Option<u32>) -> (within: bool)
    ensures
        within == within_depth(depth as int, max_depth),
{
    match max_depth {
        Some(deepest) => depth == 0 || depth - 1 <= deepest as usize,
        None => true,
    }
}

/// What the walk does with an entry that was not filtered out.
pub fn admit_by_kind(kind: EntryKind) -> (r: Admission)
    ensures
        r == admission_by_kind(kind),
{
    match kind {
        EntryKind::File => Admission::Yield,
        EntryKind::Directory => Admission::Descend,
        EntryKind::Other => Admission::Skip,
    }
}

/// Decides on an entry, given whether the ignore patterns prune it.
pub fn decide(entry: &WalkEntry, options: &ResolvedOptions, pruned: bool) -> (r: Admission)
    ensures
        r == decision(entry@, options@, pruned),
{
    if entry.depth == 0 {
        admit_by_kind(entry.kind)
    } else if !in_depth(entry.depth, options.max_depth) {
        Admission::Skip
    } else if is_hidden(entry.name.as_str()) && !options.hidden {
        Admission::Skip
    } else if entry.is_symlink && !options.follow_links {
        Admission::Skip
    } else if pruned {
        Admission::Skip
    } else {
        admit_by_kind(entry.kind)
    }
}

/// Tells whether the ignore patterns prune an entry.
pub fn is_pruned(entry: &WalkEntry, ignore: &IgnoreSet) -> (pruned: bool)
    ensures
        pruned == entry_pruned(ignore@, entry@),
{
    let is_dir = entry.kind == EntryKind::Directory;
    ignore.prunes(entry.relative_path.as_str(), is_dir) || ignore.prunes(
        entry.name.as_str(),
        is_dir,
    )
}

} // verus!
