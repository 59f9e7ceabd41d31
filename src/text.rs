//! Character-level helpers: exact comparison, wildcard detection, and the
//! translation of a shell pattern into an anchored regular expression.
use vstd::prelude::*;
use vstd::string::StrSliceExecFns;
use vstd::string::StringExecFns;

verus! {

/// Whether `c` is one of the two shell wildcard characters.
pub open spec fn is_wildcard(c: char) -> bool {
    c == '*' || c == '?'
}

/// Whether the text holds a wildcard character anywhere.
pub open spec fn has_wildcard(s: Seq<char>) -> bool {
    exists|i: int| 0 <= i < s.len() && is_wildcard(#[trigger] s[i])
}

/// The regular-expression fragment that stands for one pattern character:
/// `*` is any run of characters, `?` is exactly one character, and every
/// other character is copied into the expression as it is (so it keeps its
/// meaning there: `.` is any character, `(` opens a group).
pub open spec fn fragment(c: char) -> Seq<char> {
    if c == '*' {
        seq!['.', '*']
    } else if c == '?' {
        seq!['.']
    } else {
        seq![c]
    }
}

/// The body of the expression: each pattern character replaced by its fragment.
pub open spec fn translate(p: Seq<char>) -> Seq<char>
    decreases p.len(),
{
    if p.len() == 0 {
        Seq::empty()
    } else {
        translate(p.drop_last()) + fragment(p.last())
    }
}

/// The prefix of a wildcard expression: `.` also matches a line break, the
/// match starts at the beginning of the name, and the body is one group. A
/// body that is a valid expression by itself has balanced brackets, so an
/// alternation inside it stays within the anchors.
pub open spec fn regex_prefix() -> Seq<char> {
    seq!['(', '?', 's', ')', '^', '(', '?', ':']
}

/// The suffix of a wildcard expression: the group closes and the match ends
/// at the end of the name.
pub open spec fn regex_suffix() -> Seq<char> {
    seq![')', '$']
}

/// The whole-name regular expression that a wildcard pattern compiles to.
pub open spec fn wildcard_regex(p: Seq<char>) -> Seq<char> {
    regex_prefix() + translate(p) + regex_suffix()
}

/// Compares two texts character by character.
pub fn same_text(a: &str, b: &str) -> (r: bool)
    ensures
        r == (a@ == b@),
{
    let n = a.unicode_len();
    let m = b.unicode_len();
    if n != m {
        return false;
    }
    let mut i: usize = 0;
    while i < n
        invariant
            n == a@.len(),
            m == b@.len(),
            n == m,
            i <= n,
            forall|k: int| 0 <= k < i ==> a@[k] == b@[k],
        decreases n - i,
    {
        if a.get_char(i) != b.get_char(i) {
            return false;
        }
        i = i + 1;
    }
    proof {
        assert(a@ =~= b@);
    }
    true
}

/// Whether the text holds a shell wildcard (`*` or `?`).
pub fn contains_shell_patterns(s: &str) -> (r: bool)
    ensures
        r == has_wildcard(s@),
{
    let n = s.unicode_len();
    let mut i: usize = 0;
    while i < n
        invariant
            n == s@.len(),
            i <= n,
            forall|k: int| 0 <= k < i ==> !is_wildcard(#[trigger] s@[k]),
        decreases n - i,
    {
        let c = s.get_char(i);
        if c == '*' || c == '?' {
            assert(is_wildcard(s@[i as int]));
            return true;
        }
        i = i + 1;
    }
    false
}

/// Replaces each `*` with `.*` and each `?` with `.`, keeping every other
/// character as it is.
pub fn substitute_wildcards(p: &str) -> (r: String)
    ensures
        r@ == translate(p@),
{
    let mut out = String::new();
    let n = p.unicode_len();
    let mut i: usize = 0;
    while i < n
        invariant
            n == p@.len(),
            i <= n,
            out@ == translate(p@.subrange(0, i as int)),
        decreases n - i,
    {
        let c = p.get_char(i);
        proof {
            let q = p@.subrange(0, i as int + 1);
            assert(q.drop_last() =~= p@.subrange(0, i as int));
            assert(q.last() == c);
            assert(p@.subrange(0, 0) =~= Seq::<char>::empty());
        }
        if c == '*' {
            out.append(".*");
            proof { reveal_strlit(".*"); }
        } else if c == '?' {
            out.append(".");
            proof { reveal_strlit("."); }
        } else {
            let one = p.substring_char(i, i + 1);
            out.append(one);
            assert(one@ =~= seq![c]);
        }
        proof {
            assert(out@ =~= translate(p@.subrange(0, i as int + 1)));
        }
        i = i + 1;
    }
    proof {
        assert(p@.subrange(0, n as int) =~= p@);
    }
    out
}

/// Wraps an expression so that it must match a whole name, with `.` also
/// matching a line break.
pub fn anchor(body: &str) -> (r: String)
    ensures
        r@ == regex_prefix() + body@ + regex_suffix(),
{
    let mut out = String::from_str("(?s)^(?:");
    out.append(body);
    out.append(")$");
    proof {
        reveal_strlit("(?s)^(?:");
        reveal_strlit(")$");
        assert(out@ =~= regex_prefix() + body@ + regex_suffix());
    }
    out
}

/// Builds the anchored regular expression for a shell pattern.
pub fn to_wildcard_regex(p: &str) -> (r: String)
    ensures
        r@ == wildcard_regex(p@),
{
    let body = substitute_wildcards(p);
    anchor(body.as_str())
}

} // verus!
