//! The search itself: which entries are reported, and the depth-first,
//! pre-order walk over a directory tree.
use vstd::prelude::*;

use crate::filter::EntryKind;
use crate::filter::TypeFilter;
use crate::filter::filter_named;
use crate::pattern::Pattern;
use crate::pattern::PatternError;
use crate::pattern::refused_regex;
use crate::pattern::regex_valid;
use crate::text::translate;
use crate::text::has_wildcard;
use crate::text::wildcard_regex;

verus! {

/// One entry of a directory listing.
pub struct TreeEntry {
    /// The base name, or `None` where it could not be decoded.
    pub name: Option<String>,
    /// The full path, as the listing gave it.
    pub path: String,
    /// The type that the entry's own metadata reports.
    pub kind: EntryKind,
    /// For a directory, its own listing; `None` where it could not be read
    /// (or has not been read).
    pub listing: Option<Vec<TreeEntry>>,
}

impl TreeEntry {
    /// Whether the walk goes on into the entry's listing.
    pub open spec fn opens(self) -> bool {
        self.kind == EntryKind::Directory && self.listing is Some
    }
}

/// Why a search could not be set up.
#[derive(Debug, PartialEq, Eq)]
pub enum FinderError {
    /// The name pattern did not compile.
    InvalidPattern(PatternError),
    /// The type name is none of `file`, `dir`, `symlink` or `any`.
    UnknownType,
}

/// A configured search: a name pattern and a type filter, both fixed for the
/// whole walk.
pub struct Finder {
    pub pattern: Pattern,
    pub file_type: TypeFilter,
}

/// The paths of a sequence of entries, in order.
pub open spec fn paths_of(es: Seq<TreeEntry>) -> Seq<String> {
    es.map_values(|e: TreeEntry| e.path)
}

impl Finder {
    /// Whether an entry with this name and type is reported: its name decodes,
    /// the pattern accepts it, and the filter admits its type.
    pub open spec fn reports(self, e: TreeEntry) -> bool {
        &&& e.name is Some
        &&& self.pattern.accepts(e.name->Some_0@)
        &&& self.file_type.admits(e.kind)
    }

    /// The entries reported by a walk over `es` from position `i` on: each
    /// entry in turn is tested, then, where it is a readable directory, its
    /// own listing is walked before its next sibling.
    pub open spec fn found_from(self, es: Seq<TreeEntry>, i: int) -> Seq<TreeEntry>
        decreases es, es.len() - i,
    {
        if i < 0 || i >= es.len() {
            Seq::empty()
        } else {
            let e = es[i];
            let own = if self.reports(e) {
                seq![e]
            } else {
                Seq::empty()
            };
            let below = if e.opens() {
                self.found_from(e.listing->Some_0@, 0)
            } else {
                Seq::empty()
            };
            own + below + self.found_from(es, i + 1)
        }
    }

    /// Every entry a walk over `es` from position `i` on visits, reported or
    /// not, in the order of the walk.
    pub open spec fn visited_from(es: Seq<TreeEntry>, i: int) -> Seq<TreeEntry>
        decreases es, es.len() - i,
    {
        if i < 0 || i >= es.len() {
            Seq::empty()
        } else {
            let e = es[i];
            let below = if e.opens() {
                Finder::visited_from(e.listing->Some_0@, 0)
            } else {
                Seq::empty()
            };
            seq![e] + below + Finder::visited_from(es, i + 1)
        }
    }

    /// The entries reported by a walk over the listing `es`.
    pub open spec fn found(self, es: Seq<TreeEntry>) -> Seq<TreeEntry> {
        self.found_from(es, 0)
    }

    /// Sets up a search for names matching `pattern` among entries of the
    /// type named `file_type`.
    pub fn new(pattern: &str, file_type: &str) -> (r: Result<Finder, FinderError>)
        ensures
            filter_named(file_type@) is None ==> r is Err && r->Err_0 is UnknownType,
            filter_named(file_type@) is Some ==> (r is Ok <==> (!has_wildcard(pattern@) || (
            regex_valid(translate(pattern@)) && regex_valid(wildcard_regex(pattern@))))),
            r is Ok ==> r->Ok_0.pattern.built_from(pattern@) && Some(r->Ok_0.file_type)
                == filter_named(file_type@),
            filter_named(file_type@) is Some && r is Err ==> has_wildcard(pattern@)
                && r->Err_0 is InvalidPattern && r->Err_0->InvalidPattern_0->InvalidWildcard_regex@
                == refused_regex(pattern@),
    {
        let t = match TypeFilter::parse(file_type) {
            Some(t) => t,
            None => return Err(FinderError::UnknownType),
        };
        match Pattern::new(pattern) {
            Ok(p) => Ok(Finder { pattern: p, file_type: t }),
            Err(e) => Err(FinderError::InvalidPattern(e)),
        }
    }

    /// Whether the entry is reported.
    pub fn reports_entry(&self, e: &TreeEntry) -> (r: bool)
        ensures
            r == self.reports(*e),
    {
        match &e.name {
            Some(n) => self.pattern.matches(n.as_str()) && self.file_type.accepts(e.kind),
            None => false,
        }
    }

    /// Appends to `out` the paths that a walk over `es` reports, in pre-order.
    fn collect(&self, es: &Vec<TreeEntry>, out: &mut Vec<String>)
        ensures
            final(out)@ == old(out)@ + paths_of(self.found(es@)),
        decreases es@,
    {
        let n = es.len();
        let mut i: usize = 0;
        while i < n
            invariant
                n == es@.len(),
                i <= n,
                old(out)@ + paths_of(self.found(es@)) == out@ + paths_of(self.found_from(es@, i as int)),
            decreases n - i,
        {
            let e = &es[i];
            let ghost before = out@;
            let ghost own = if self.reports(*e) { seq![*e] } else { Seq::<TreeEntry>::empty() };
            let ghost below = if e.opens() { self.found(e.listing->Some_0@) } else { Seq::<TreeEntry>::empty() };
            let ghost rest = self.found_from(es@, i as int + 1);
            if self.reports_entry(e) {
                out.push(e.path.clone());
            }
            assert(out@ == before + paths_of(own));
            if e.kind == EntryKind::Directory {
                match &e.listing {
                    Some(sub) => {
                        self.collect(sub, out);
                    },
                    None => {},
                }
            }
            assert(out@ == before + paths_of(own) + paths_of(below));
            proof {
                assert(self.found_from(es@, i as int) == own + below + rest);
                assert(paths_of(own + below + rest) =~= paths_of(own) + paths_of(below) + paths_of(rest));
                assert(before + paths_of(own) + paths_of(below) + paths_of(rest)
                    =~= before + (paths_of(own) + paths_of(below) + paths_of(rest)));
            }
            i = i + 1;
        }
    }

    /// The paths of every reported entry under the listing `tree`, in
    /// pre-order: an entry before the entries below it, siblings in listing
    /// order.
    pub fn search_tree(&self, tree: &Vec<TreeEntry>) -> (r: Vec<String>)
        ensures
            r@ == paths_of(self.found(tree@)),
    {
        let mut out: Vec<String> = Vec::new();
        self.collect(tree, &mut out);
        assert(out@ =~= paths_of(self.found(tree@)));
        out
    }
}

} // verus!
