//! Entry types as the file system reports them, and the filter on them.
use vstd::prelude::*;
use vstd::string::StringExecFns;

use crate::text::same_text;

verus! {

/// The type of a directory entry, as its metadata reports it (links are not
/// followed).
#[derive(Debug, Clone, Copy, PartialEq, Eq, Structural)]
pub enum EntryKind {
    File,
    Directory,
    Symlink,
    /// Anything else: a socket, a device, a pipe.
    Other,
}

/// Which entry types a search reports.
#[derive(Debug, Clone, Copy, PartialEq, Eq, Structural)]
pub enum TypeFilter {
    File,
    Directory,
    Symlink,
    Any,
}

impl TypeFilter {
    /// Whether the filter lets an entry of type `kind` through.
    pub open spec fn admits(self, kind: EntryKind) -> bool {
        match self {
            TypeFilter::File => kind == EntryKind::File,
            TypeFilter::Directory => kind == EntryKind::Directory,
            TypeFilter::Symlink => kind == EntryKind::Symlink,
            TypeFilter::Any => true,
        }
    }

    /// Whether the filter lets an entry of type `kind` through.
    pub fn accepts(&self, kind: EntryKind) -> (r: bool)
        ensures
            r == self.admits(kind),
    {
        match self {
            TypeFilter::File => kind == EntryKind::File,
            TypeFilter::Directory => kind == EntryKind::Directory,
            TypeFilter::Symlink => kind == EntryKind::Symlink,
            TypeFilter::Any => true,
        }
    }

    /// Reads a filter from its name: `file`, `dir`, `symlink` or `any`.
    pub fn parse(s: &str) -> (r: Option<TypeFilter>)
        ensures
            r == filter_named(s@),
    {
        proof {
            reveal_strlit("file");
            reveal_strlit("dir");
            reveal_strlit("symlink");
            reveal_strlit("any");
            assert("file"@ =~= seq!['f', 'i', 'l', 'e']);
            assert("dir"@ =~= seq!['d', 'i', 'r']);
            assert("symlink"@ =~= seq!['s', 'y', 'm', 'l', 'i', 'n', 'k']);
            assert("any"@ =~= seq!['a', 'n', 'y']);
        }
        if same_text(s, "file") {
            Some(TypeFilter::File)
        } else if same_text(s, "dir") {
            Some(TypeFilter::Directory)
        } else if same_text(s, "symlink") {
            Some(TypeFilter::Symlink)
        } else if same_text(s, "any") {
            Some(TypeFilter::Any)
        } else {
            None
        }
    }
}

/// The filter that a name stands for, if any.
pub open spec fn filter_named(s: Seq<char>) -> Option<TypeFilter> {
    if s == seq!['f', 'i', 'l', 'e'] {
        Some(TypeFilter::File)
    } else if s == seq!['d', 'i', 'r'] {
        Some(TypeFilter::Directory)
    } else if s == seq!['s', 'y', 'm', 'l', 'i', 'n', 'k'] {
        Some(TypeFilter::Symlink)
    } else if s == seq!['a', 'n', 'y'] {
        Some(TypeFilter::Any)
    } else {
        None
    }
}

/// Checks a filter name given on the command line.
pub fn validate_file_type(v: String) -> (r: Result<(), String>)
    ensures
        r is Ok <==> filter_named(v@) is Some,
        r is Err ==> r->Err_0@ == "should be one of \"file\", \"dir\", or \"symlink\""@,
{
    match TypeFilter::parse(v.as_str()) {
        Some(_) => Ok(()),
        None => Err(String::from_str("should be one of \"file\", \"dir\", or \"symlink\"")),
    }
}

/// The filter named `s`, which must be one of the four names.
pub fn convert_str_to_file_type(s: &str) -> (r: TypeFilter)
    requires
        filter_named(s@) is Some,
    ensures
        Some(r) == filter_named(s@),
{
    match TypeFilter::parse(s) {
        Some(t) => t,
        None => TypeFilter::Any,
    }
}

} // verus!
