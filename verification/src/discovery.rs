//! Discovery filtering: which entries of a directory walk are matched,
//! which directories are pruned, and how symlink cycles are broken.
//!
//! The walk itself — enumerating directory entries, resolving symlinks,
//! reading metadata — is the caller's, since it is all I/O. Every
//! decision the walk takes is made here: extension matching against a
//! lowercased extension set, pruning of dot-prefixed directories below
//! the root, and the check-and-insert on the set of canonical paths
//! that keeps a cycle from being walked twice.

use vstd::prelude::*;
use vstd::string::StrSliceExecFns;
use vstd::string::StringExecFns;

verus! {

/// A file that passed every filter, with the metadata the caller read
/// for it: size in bytes and modification time in nanoseconds since
/// the Unix epoch (zero when the platform reports none).
#[derive(Clone, Debug)]
pub struct DiscoveredFile {
    pub path: String,
    pub size: u64,
    pub modified_ns: u64,
}

/// Why a discovery run failed as a whole. Unreadable entries are
/// skipped silently and never raise these.
#[derive(Clone, Copy, PartialEq, Eq, Structural, Debug)]
pub enum DiscoverError {
    /// The root path does not exist.
    NotFound,
    /// The root path exists but is not a directory.
    NotADirectory,
    /// A cancellation signal arrived at a reporting checkpoint.
    Interrupted,
}

impl DiscoverError {
    /// The message text reported for this error about `path`.
    pub open spec fn message_spec(self, path: Seq<char>) -> Seq<char> {
        match self {
            DiscoverError::NotFound => "Directory not found: "@ + path,
            DiscoverError::NotADirectory => "Not a directory: "@ + path,
            DiscoverError::Interrupted => "Interrupted"@,
        }
    }

    /// Renders the error for the caller that supplied `path` as root.
    pub fn message(&self, path: &str) -> (r: String)
        ensures
            r@ == self.message_spec(path@),
    {
        match self {
            DiscoverError::NotFound => String::from_str("Directory not found: ").concat(path),
            DiscoverError::NotADirectory => String::from_str("Not a directory: ").concat(path),
            DiscoverError::Interrupted => String::from_str("Interrupted"),
        }
    }
}

/// The lowercase folding of `s`. Folding is left uninterpreted; the
/// library relies on it depending on the characters alone.
pub uninterp spec fn folded(s: Seq<char>) -> Seq<char>;

/// Relies on str::to_lowercase: the lowercase form is computed from
/// the characters of the input alone.
#[verifier::external_body]
fn to_lower(s: &str) -> (r: String)
    ensures
        r@ == folded(s@),
{
    s.to_lowercase()
}

/// The extension of a file name: what follows the last `.`, provided
/// that dot is not the name's first character. Names without such a
/// dot — `Makefile`, `.bashrc`, `.` — have none. A trailing dot gives
/// the empty extension.
pub open spec fn ext_of(name: Seq<char>) -> Option<Seq<char>>
    decreases name.len(),
{
    if name.len() < 2 {
        None
    } else if name[name.len() - 1] == '.' {
        Some(Seq::empty())
    } else {
        match ext_of(name.drop_last()) {
            None => None,
            Some(e) => Some(e.push(name[name.len() - 1])),
        }
    }
}

proof fn lemma_ext_of_at(name: Seq<char>, j: int)
    requires
        0 <= j < name.len(),
        name[j] == '.',
        forall|k: int| j < k < name.len() ==> name[k] != '.',
    ensures
        ext_of(name) == if j > 0 {
            Some(name.subrange(j + 1, name.len() as int))
        } else {
            None::<Seq<char>>
        },
    decreases name.len(),
{
    if j == name.len() - 1 {
        if name.len() >= 2 {
            assert(name.subrange(j + 1, name.len() as int) =~= Seq::<char>::empty());
        }
    } else {
        let prefix = name.drop_last();
        lemma_ext_of_at(prefix, j);
        if j > 0 {
            assert(name.subrange(j + 1, name.len() as int) =~= prefix.subrange(
                j + 1,
                prefix.len() as int,
            ).push(name[name.len() - 1]));
        }
    }
}

proof fn lemma_ext_of_none(name: Seq<char>)
    requires
        forall|k: int| 0 <= k < name.len() ==> name[k] != '.',
    ensures
        ext_of(name) is None,
    decreases name.len(),
{
    if name.len() >= 2 {
        lemma_ext_of_none(name.drop_last());
    }
}

/// The views of a list of strings.
pub open spec fn str_views(v: Seq<String>) -> Seq<Seq<char>> {
    v.map_values(|s: String| s@)
}

/// Extracts the extension of a file name, if it has one.
pub fn extension_of(name: &str) -> (r: Option<String>)
    ensures
        match r {
            Some(e) => ext_of(name@) == Some(e@),
            None => ext_of(name@) is None,
        },
{
    let n = name.unicode_len();
    let mut i: usize = n;
    while i > 0
        invariant
            i <= n,
            n == name@.len(),
            forall|k: int| i <= k < n ==> name@[k] != '.',
        decreases i,
    {
        if name.get_char(i - 1) == '.' {
            if i > 1 {
                let e = name.substring_char(i, n).to_owned();
                proof {
                    lemma_ext_of_at(name@, i - 1);
                }
                return Some(e);
            } else {
                proof {
                    lemma_ext_of_at(name@, 0);
                }
                return None;
            }
        }
        i = i - 1;
    }
    proof {
        lemma_ext_of_none(name@);
    }
    None
}

/// Whether a file name is matched: it has an extension whose lowercase
/// folding occurs in the given (already lowercased) extension list.
/// Names without an extension never match.
pub open spec fn name_matches(name: Seq<char>, exts: Seq<Seq<char>>) -> bool {
    match ext_of(name) {
        Some(e) => exts.contains(folded(e)),
        None => false,
    }
}

/// Folds every extension of the caller's list to lowercase, so that
/// matching is case-insensitive.
pub fn normalize_extensions(exts: &Vec<String>) -> (r: Vec<String>)
    ensures
        r@.len() == exts@.len(),
        forall|i: int| 0 <= i < r@.len() ==> #[trigger] r@[i]@ == folded(exts@[i]@),
{
    let mut r: Vec<String> = Vec::new();
    let mut i: usize = 0;
    while i < exts.len()
        invariant
            i <= exts@.len(),
            r@.len() == i,
            forall|k: int| 0 <= k < i ==> #[trigger] r@[k]@ == folded(exts@[k]@),
        decreases exts@.len() - i,
    {
        r.push(to_lower(exts[i].as_str()));
        i = i + 1;
    }
    r
}

/// Decides whether `name` (a file name) is matched against the
/// lowercased extension list `exts_lower`.
pub fn file_matches(name: &str, exts_lower: &Vec<String>) -> (r: bool)
    ensures
        r == name_matches(name@, str_views(exts_lower@)),
{
    match extension_of(name) {
        None => false,
        Some(e) => {
            let low = to_lower(e.as_str());
            let n = exts_lower.len();
            let mut i: usize = 0;
            while i < n
                invariant
                    i <= n,
                    n == exts_lower@.len(),
                    low@ == folded(e@),
                    ext_of(name@) == Some(e@),
                    forall|k: int| 0 <= k < i ==> exts_lower@[k]@ != low@,
                decreases n - i,
            {
                if exts_lower[i].eq(&low) {
                    proof {
                        assert(str_views(exts_lower@)[i as int] == low@);
                    }
                    return true;
                }
                i = i + 1;
            }
            proof {
                assert(forall|k: int|
                    0 <= k < str_views(exts_lower@).len() ==> str_views(exts_lower@)[k]
                        != folded(e@));
            }
            false
        },
    }
}

/// Whether a directory is pruned: its name starts with a dot and it is
/// not the traversal root (depth zero is never pruned).
pub open spec fn prune_spec(name: Seq<char>, depth: u64) -> bool {
    depth > 0 && name.len() > 0 && name[0] == '.'
}

/// Decides whether the directory `name` at `depth` is pruned entirely.
pub fn should_prune(name: &str, depth: u64) -> (r: bool)
    ensures
        r == prune_spec(name@, depth),
{
    if depth == 0 {
        false
    } else {
        let n = name.unicode_len();
        if n == 0 {
            false
        } else {
            name.get_char(0) == '.'
        }
    }
}

/// Dot-prefixed directories below the root are always pruned, whatever
/// stands beneath them, so their files can never be matched.
pub proof fn lemma_hidden_dir_pruned(name: Seq<char>, depth: u64)
    requires
        depth > 0,
        name.len() > 0,
        name[0] == '.',
    ensures
        prune_spec(name, depth),
{
}

/// The set of canonicalized directory paths already descended into,
/// kept to break symlink cycles. Private to one walk.
pub struct VisitedSet {
    entries: Vec<String>,
}

impl View for VisitedSet {
    type V = Set<Seq<char>>;

    closed spec fn view(&self) -> Set<Seq<char>> {
        Set::new(|p: Seq<char>| str_views(self.entries@).contains(p))
    }
}

impl VisitedSet {
    /// An empty set: nothing has been visited yet.
    pub fn new() -> (r: VisitedSet)
        ensures
            r@ == Set::<Seq<char>>::empty(),
    {
        let r = VisitedSet { entries: Vec::new() };
        proof {
            assert(r@ =~= Set::<Seq<char>>::empty());
        }
        r
    }

    /// The atomic check-and-insert at the heart of cycle detection:
    /// reports whether `path` is new, and records it either way. A
    /// directory is descended into only when this returns true.
    pub fn check_and_insert(&mut self, path: String) -> (fresh: bool)
        ensures
            fresh == !old(self)@.contains(path@),
            final(self)@ == old(self)@.insert(path@),
    {
        let n = self.entries.len();
        let mut i: usize = 0;
        while i < n
            invariant
                i <= n,
                n == self.entries@.len(),
                forall|k: int| 0 <= k < i ==> self.entries@[k]@ != path@,
            decreases n - i,
        {
            if self.entries[i].eq(&path) {
                proof {
                    assert(str_views(self.entries@)[i as int] == path@);
                    assert(self@.contains(path@));
                    assert(self@ =~= self@.insert(path@));
                }
                return false;
            }
            i = i + 1;
        }
        proof {
            assert(forall|k: int|
                0 <= k < str_views(self.entries@).len() ==> str_views(self.entries@)[k] != path@);
            assert(!self@.contains(path@));
        }
        let ghost before = self.entries@;
        let ghost p = path@;
        self.entries.push(path);
        proof {
            let pushed = self.entries@;
            assert(str_views(pushed)[before.len() as int] == p);
            assert forall|q: Seq<char>| #[trigger] self@.contains(q) implies old(self)@.insert(
                p,
            ).contains(q) by {
                let w = choose|w: int|
                    0 <= w < str_views(pushed).len() && str_views(pushed)[w] == q;
                if w < before.len() {
                    assert(str_views(before)[w] == q);
                }
            }
            assert forall|q: Seq<char>| old(self)@.insert(p).contains(q) implies self@.contains(
                q,
            ) by {
                if q == p {
                    assert(str_views(pushed)[before.len() as int] == q);
                } else {
                    let w = choose|w: int|
                        0 <= w < str_views(before).len() && str_views(before)[w] == q;
                    assert(str_views(pushed)[w] == q);
                }
            }
            assert(self@ =~= old(self)@.insert(p));
        }
        true
    }
}

/// A canonical path once recorded is reported as seen by every later
/// check, so a symlinked directory pointing back at an ancestor is
/// skipped the second time it comes up and the walk cannot loop.
pub proof fn lemma_cycle_detected(seen: Set<Seq<char>>, p: Seq<char>)
    ensures
        seen.insert(p).contains(p),
{
}

/// What the walk does with a directory entry, decided before the
/// directory is opened.
#[derive(Clone, Copy, PartialEq, Eq, Structural, Debug)]
pub enum DirAction {
    /// Dot-prefixed below the root: not descended into at all.
    Prune,
    /// Its canonical path was already descended into: a cycle, skipped.
    SkipCycle,
    /// Descended into, its canonical path now recorded.
    Descend,
}

/// Decides a directory's fate, applying the filter rules in order:
/// hidden-directory pruning first, then — only when symlinks are
/// followed and the directory could be canonicalized — the atomic
/// check-and-insert against the visited set. A directory whose
/// canonical path was seen before is skipped; otherwise the path is
/// recorded and the directory is descended into.
pub fn dir_action(
    visited: &mut VisitedSet,
    follow_symlinks: bool,
    name: &str,
    depth: u64,
    canonical: Option<String>,
) -> (a: DirAction)
    ensures
        (a == DirAction::Prune <==> prune_spec(name@, depth)),
        (a == DirAction::SkipCycle <==> (!prune_spec(name@, depth) && follow_symlinks && (
        canonical matches Some(c) && old(visited)@.contains(c@)))),
        final(visited)@ == (match canonical {
            Some(c) => if follow_symlinks && !prune_spec(name@, depth) {
                old(visited)@.insert(c@)
            } else {
                old(visited)@
            },
            None => old(visited)@,
        }),
{
    if should_prune(name, depth) {
        return DirAction::Prune;
    }
    if follow_symlinks {
        match canonical {
            Some(c) => {
                if visited.check_and_insert(c) {
                    DirAction::Descend
                } else {
                    DirAction::SkipCycle
                }
            },
            None => DirAction::Descend,
        }
    } else {
        DirAction::Descend
    }
}

/// Whether the `i`-th name of the list is matched against `exts`.
pub open spec fn matched_at(names: Seq<String>, exts: Seq<Seq<char>>, i: int) -> bool {
    name_matches(names[i]@, exts)
}

/// Picks out of `names` the indices of the file names that match the
/// lowercased extension list, in order. The result is empty exactly
/// when no name matches.
pub fn select_matches(names: &Vec<String>, exts_lower: &Vec<String>) -> (r: Vec<usize>)
    ensures
        forall|k: int|
            0 <= k < r@.len() ==> #[trigger] r@[k] < names@.len() && matched_at(
                names@,
                str_views(exts_lower@),
                r@[k] as int,
            ),
        forall|i: int|
            0 <= i < names@.len() && #[trigger] matched_at(names@, str_views(exts_lower@), i)
                ==> r@.contains(i as usize),
        (r@.len() == 0 <==> (forall|i: int|
            0 <= i < names@.len() ==> !#[trigger] matched_at(names@, str_views(exts_lower@), i))),
{
    let mut r: Vec<usize> = Vec::new();
    let n = names.len();
    let mut i: usize = 0;
    while i < n
        invariant
            i <= n,
            n == names@.len(),
            forall|k: int|
                0 <= k < r@.len() ==> #[trigger] r@[k] < i && matched_at(
                    names@,
                    str_views(exts_lower@),
                    r@[k] as int,
                ),
            forall|j: int|
                0 <= j < i && #[trigger] matched_at(names@, str_views(exts_lower@), j)
                    ==> r@.contains(j as usize),
        decreases n - i,
    {
        if file_matches(names[i].as_str(), exts_lower) {
            let ghost pre = r@;
            r.push(i);
            proof {
                assert(matched_at(names@, str_views(exts_lower@), i as int));
                assert forall|k: int| 0 <= k < r@.len() implies #[trigger] r@[k] < i + 1
                    && matched_at(names@, str_views(exts_lower@), r@[k] as int) by {
                    if k < pre.len() {
                        assert(r@[k] == pre[k]);
                        assert(matched_at(names@, str_views(exts_lower@), pre[k] as int));
                    } else {
                        assert(r@[k] == i);
                    }
                }
                assert forall|j: int|
                    0 <= j < i + 1 && #[trigger] matched_at(names@, str_views(exts_lower@), j)
                        implies r@.contains(j as usize) by {
                    if j < i {
                        assert(pre.contains(j as usize));
                        let w = choose|w: int| 0 <= w < pre.len() && pre[w] == j as usize;
                        assert(r@[w] == j as usize);
                    } else {
                        assert(r@[pre.len() as int] == j as usize);
                    }
                }
            }
        }
        i = i + 1;
    }
    proof {
        if r@.len() > 0 {
            assert(r@[0] < names@.len() && matched_at(names@, str_views(exts_lower@), r@[0] as int));
        }
    }
    r
}

} // verus!
