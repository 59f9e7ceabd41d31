//! Facts that hold of every search.
use vstd::prelude::*;

use crate::filter::EntryKind;
use crate::filter::TypeFilter;
use crate::finder::Finder;
use crate::finder::paths_of;
use crate::finder::TreeEntry;
use crate::pattern::Pattern;
use crate::text::has_wildcard;
use crate::text::translate;
use crate::text::wildcard_regex;

verus! {

/// A pattern without `*` or `?` accepts a name exactly when the name equals
/// the pattern: no prefix, suffix or substring match.
pub proof fn literal_pattern_matches_exactly(pat: Pattern, p: Seq<char>, name: Seq<char>)
    requires
        pat.built_from(p),
        !has_wildcard(p),
    ensures
        pat.accepts(name) <==> name == p,
{
}

/// The pattern `*` compiles to the expression `(?s)^(?:.*)$`: any run of any
/// characters, line breaks included, over the whole name.
pub proof fn star_pattern_expression(pat: Pattern)
    requires
        pat.built_from(seq!['*']),
    ensures
        pat is Wildcard,
        pat->Wildcard_0.source() == seq!['(', '?', 's', ')', '^', '(', '?', ':', '.', '*', ')', '$'],
{
    let p = seq!['*'];
    assert(p[0] == '*');
    assert(has_wildcard(p));
    assert(p.drop_last() =~= Seq::<char>::empty());
    assert(translate(Seq::<char>::empty()) =~= Seq::<char>::empty());
    assert(translate(p) =~= seq!['.', '*']);
    assert(wildcard_regex(p) =~= seq!['(', '?', 's', ')', '^', '(', '?', ':', '.', '*', ')', '$']);
}

/// The pattern `a?c` compiles to the expression `(?s)^(?:a.c)$`: an `a`, exactly
/// one character, a `c`, over the whole name.
pub proof fn single_wildcard_pattern_expression(pat: Pattern)
    requires
        pat.built_from(seq!['a', '?', 'c']),
    ensures
        pat is Wildcard,
        pat->Wildcard_0.source() == seq!['(', '?', 's', ')', '^', '(', '?', ':', 'a', '.', 'c', ')', '$'],
{
    let p = seq!['a', '?', 'c'];
    assert(p[1] == '?');
    assert(has_wildcard(p));
    let p2 = p.drop_last();
    let p1 = p2.drop_last();
    assert(p2 =~= seq!['a', '?']);
    assert(p1 =~= seq!['a']);
    assert(p1.drop_last() =~= Seq::<char>::empty());
    assert(translate(Seq::<char>::empty()) =~= Seq::<char>::empty());
    assert(translate(p1) =~= seq!['a']);
    assert(translate(p2) =~= seq!['a', '.']);
    assert(translate(p) =~= seq!['a', '.', 'c']);
    assert(wildcard_regex(p) =~= seq!['(', '?', 's', ')', '^', '(', '?', ':', 'a', '.', 'c', ')', '$']);
}

/// Two finders that report the same entries walk any listing to the same
/// result.
proof fn same_reports_same_result(f: Finder, g: Finder, es: Seq<TreeEntry>, i: int)
    requires
        forall|e: TreeEntry| f.reports(e) == g.reports(e),
    ensures
        f.found_from(es, i) == g.found_from(es, i),
    decreases es, es.len() - i,
{
    if 0 <= i < es.len() {
        let e = es[i];
        if e.opens() {
            same_reports_same_result(f, g, e.listing->Some_0@, 0);
        }
        same_reports_same_result(f, g, es, i + 1);
    }
}

/// Searches set up from the same pattern text and the same type filter report
/// the same entries, in the same order, over an unchanged tree: a search can
/// be repeated.
pub proof fn search_is_repeatable(f: Finder, g: Finder, p: Seq<char>, tree: Seq<TreeEntry>)
    requires
        f.pattern.built_from(p),
        g.pattern.built_from(p),
        f.file_type == g.file_type,
    ensures
        f.found(tree) == g.found(tree),
{
    assert forall|e: TreeEntry| f.reports(e) == g.reports(e) by {}
    same_reports_same_result(f, g, tree, 0);
}

/// Every reported entry has a name the pattern accepts and a type the filter
/// admits.
pub proof fn found_entries_are_reported(f: Finder, es: Seq<TreeEntry>, i: int, e: TreeEntry)
    requires
        f.found_from(es, i).contains(e),
    ensures
        f.reports(e),
        f.file_type.admits(e.kind),
    decreases es, es.len() - i,
{
    if 0 <= i < es.len() {
        let x = es[i];
        let own = if f.reports(x) { seq![x] } else { Seq::<TreeEntry>::empty() };
        let below = if x.opens() { f.found_from(x.listing->Some_0@, 0) } else { Seq::<TreeEntry>::empty() };
        let rest = f.found_from(es, i + 1);
        assert(f.found_from(es, i) == own + below + rest);
        if own.contains(e) {
        } else if below.contains(e) {
            found_entries_are_reported(f, x.listing->Some_0@, 0, e);
        } else {
            assert((own + below + rest).contains(e));
            assert(rest.contains(e)) by {
                let k = choose|k: int| 0 <= k < (own + below + rest).len() && (own + below + rest)[k] == e;
                assert(rest[k - own.len() - below.len()] == e);
            }
            found_entries_are_reported(f, es, i + 1, e);
        }
    }
}

/// What a search with any filter reports, a search with no filter (`Any`) and
/// a pattern that accepts the same names reports too.
pub proof fn filtered_within_any(f: Finder, g: Finder, es: Seq<TreeEntry>, i: int, e: TreeEntry)
    requires
        forall|n: Seq<char>| f.pattern.accepts(n) == g.pattern.accepts(n),
        g.file_type == TypeFilter::Any,
        f.found_from(es, i).contains(e),
    ensures
        g.found_from(es, i).contains(e),
    decreases es, es.len() - i,
{
    if 0 <= i < es.len() {
        let x = es[i];
        let own = if f.reports(x) { seq![x] } else { Seq::<TreeEntry>::empty() };
        let below = if x.opens() { f.found_from(x.listing->Some_0@, 0) } else { Seq::<TreeEntry>::empty() };
        let rest = f.found_from(es, i + 1);
        let gown = if g.reports(x) { seq![x] } else { Seq::<TreeEntry>::empty() };
        let gbelow = if x.opens() { g.found_from(x.listing->Some_0@, 0) } else { Seq::<TreeEntry>::empty() };
        let grest = g.found_from(es, i + 1);
        assert(f.found_from(es, i) == own + below + rest);
        assert(g.found_from(es, i) == gown + gbelow + grest);
        let all = own + below + rest;
        let k = choose|k: int| 0 <= k < all.len() && all[k] == e;
        let gall = gown + gbelow + grest;
        if k < own.len() {
            assert(gall[0] == e);
        } else if k < own.len() + below.len() {
            assert(below[k - own.len()] == e);
            filtered_within_any(f, g, x.listing->Some_0@, 0, e);
            let m = choose|m: int| 0 <= m < gbelow.len() && gbelow[m] == e;
            assert(gall[gown.len() + m] == e);
        } else {
            assert(rest[k - own.len() - below.len()] == e);
            filtered_within_any(f, g, es, i + 1, e);
            let m = choose|m: int| 0 <= m < grest.len() && grest[m] == e;
            assert(gall[gown.len() + gbelow.len() + m] == e);
        }
    }
}

/// Two patterns built from the same text accept the same names.
pub proof fn same_text_same_names(a: Pattern, b: Pattern, p: Seq<char>, n: Seq<char>)
    requires
        a.built_from(p),
        b.built_from(p),
    ensures
        a.accepts(n) == b.accepts(n),
{
}

/// Type filtering composes with name filtering: over one tree, with finders
/// set up from one pattern text, the entries reported for `File`,
/// `Directory` and `Symlink` are all reported for `Any`, and no entry is
/// reported for two of those three.
pub proof fn type_filters_partition(
    file: Finder,
    dir: Finder,
    link: Finder,
    any: Finder,
    p: Seq<char>,
    tree: Seq<TreeEntry>,
    e: TreeEntry,
)
    requires
        file.pattern.built_from(p),
        dir.pattern.built_from(p),
        link.pattern.built_from(p),
        any.pattern.built_from(p),
        file.file_type == TypeFilter::File,
        dir.file_type == TypeFilter::Directory,
        link.file_type == TypeFilter::Symlink,
        any.file_type == TypeFilter::Any,
    ensures
        file.found(tree).contains(e) || dir.found(tree).contains(e) || link.found(tree).contains(e)
            ==> any.found(tree).contains(e),
        !(file.found(tree).contains(e) && dir.found(tree).contains(e)),
        !(file.found(tree).contains(e) && link.found(tree).contains(e)),
        !(dir.found(tree).contains(e) && link.found(tree).contains(e)),
{
    assert forall|n: Seq<char>| #[trigger] file.pattern.accepts(n) == any.pattern.accepts(n) by {
        same_text_same_names(file.pattern, any.pattern, p, n);
    }
    assert forall|n: Seq<char>| #[trigger] dir.pattern.accepts(n) == any.pattern.accepts(n) by {
        same_text_same_names(dir.pattern, any.pattern, p, n);
    }
    assert forall|n: Seq<char>| #[trigger] link.pattern.accepts(n) == any.pattern.accepts(n) by {
        same_text_same_names(link.pattern, any.pattern, p, n);
    }
    if file.found(tree).contains(e) {
        found_entries_are_reported(file, tree, 0, e);
        filtered_within_any(file, any, tree, 0, e);
    }
    if dir.found(tree).contains(e) {
        found_entries_are_reported(dir, tree, 0, e);
        filtered_within_any(dir, any, tree, 0, e);
    }
    if link.found(tree).contains(e) {
        found_entries_are_reported(link, tree, 0, e);
        filtered_within_any(link, any, tree, 0, e);
    }
}

/// A reported directory comes first, then everything reported below it,
/// then what its later siblings add: a matching directory is still entered.
pub proof fn matched_directory_is_entered(f: Finder, es: Seq<TreeEntry>, i: int)
    requires
        0 <= i < es.len(),
        f.reports(es[i]),
        es[i].opens(),
    ensures
        f.found_from(es, i) == seq![es[i]] + f.found(es[i].listing->Some_0@) + f.found_from(
            es,
            i + 1,
        ),
{
}

/// What the entry at `j` of `es` itself adds to a walk.
pub open spec fn own_report(f: Finder, es: Seq<TreeEntry>, j: int) -> Seq<TreeEntry> {
    if f.reports(es[j]) {
        seq![es[j]]
    } else {
        Seq::empty()
    }
}

/// What the listing below the entry at `j` of `es` adds to a walk.
pub open spec fn below_report(f: Finder, es: Seq<TreeEntry>, j: int) -> Seq<TreeEntry> {
    if es[j].opens() {
        f.found(es[j].listing->Some_0@)
    } else {
        Seq::empty()
    }
}

/// Two listings that agree from `k` on are walked alike from `k` on.
proof fn same_tail_same_result(f: Finder, es: Seq<TreeEntry>, fs: Seq<TreeEntry>, k: int)
    requires
        0 <= k,
        es.len() == fs.len(),
        forall|m: int| k <= m < es.len() ==> es[m] == fs[m],
    ensures
        f.found_from(es, k) == f.found_from(fs, k),
    decreases es.len() - k,
{
    if k < es.len() {
        same_tail_same_result(f, es, fs, k + 1);
    }
}

/// One step of a walk: the entry at `i`, then what lies below it, then its
/// later siblings.
proof fn walk_step(f: Finder, es: Seq<TreeEntry>, i: int)
    requires
        0 <= i < es.len(),
    ensures
        f.found_from(es, i) == own_report(f, es, i) + below_report(f, es, i) + f.found_from(
            es,
            i + 1,
        ),
{
}

/// Whether `fs` is `es` with the entry at `j` keeping its name, path and type
/// but with another listing (or none).
pub open spec fn same_but_listing(es: Seq<TreeEntry>, fs: Seq<TreeEntry>, j: int) -> bool {
    &&& es.len() == fs.len()
    &&& 0 <= j < es.len()
    &&& forall|m: int| 0 <= m < es.len() && m != j ==> es[m] == fs[m]
    &&& fs[j].name == es[j].name
    &&& fs[j].path == es[j].path
    &&& fs[j].kind == es[j].kind
}

/// At `j` itself, each walk adds the entry and what lies below it, then the
/// same later siblings.
proof fn changed_at(f: Finder, es: Seq<TreeEntry>, fs: Seq<TreeEntry>, j: int)
    requires
        same_but_listing(es, fs, j),
    ensures
        f.found_from(es, j) == own_report(f, es, j) + below_report(f, es, j) + f.found_from(
            es,
            j + 1,
        ),
        f.found_from(fs, j) == own_report(f, fs, j) + below_report(f, fs, j) + f.found_from(
            es,
            j + 1,
        ),
{
    same_tail_same_result(f, es, fs, j + 1);
    walk_step(f, es, j);
    walk_step(f, fs, j);
}

/// Before `j`, both walks make the same step.
proof fn changed_before(f: Finder, es: Seq<TreeEntry>, fs: Seq<TreeEntry>, j: int, i: int)
    requires
        same_but_listing(es, fs, j),
        0 <= i < j,
    ensures
        f.found_from(es, i) == own_report(f, es, i) + below_report(f, es, i) + f.found_from(
            es,
            i + 1,
        ),
        f.found_from(fs, i) == own_report(f, es, i) + below_report(f, es, i) + f.found_from(
            fs,
            i + 1,
        ),
{
    assert(fs[i] == es[i]);
    walk_step(f, es, i);
    walk_step(f, fs, i);
}

/// The paths of joined sequences are the joined paths.
proof fn paths_of_joined(a: Seq<TreeEntry>, b: Seq<TreeEntry>, c: Seq<TreeEntry>, d: Seq<TreeEntry>)
    ensures
        paths_of(a + b + c + d) == paths_of(a) + paths_of(b) + paths_of(c) + paths_of(d),
{
    assert(paths_of(a + b + c + d) =~= paths_of(a) + paths_of(b) + paths_of(c) + paths_of(d));
}

/// From any `i` up to `j`, the walks of `es` and of `fs` share what comes
/// before the entry at `j` and what comes after everything below it.
proof fn changed_from(f: Finder, es: Seq<TreeEntry>, fs: Seq<TreeEntry>, j: int, i: int) -> (before:
    Seq<TreeEntry>)
    requires
        same_but_listing(es, fs, j),
        0 <= i <= j,
    ensures
        f.found_from(es, i) == before + own_report(f, es, j) + below_report(f, es, j)
            + f.found_from(es, j + 1),
        f.found_from(fs, i) == before + own_report(f, fs, j) + below_report(f, fs, j)
            + f.found_from(es, j + 1),
    decreases j - i,
{
    let own = own_report(f, es, j);
    let own2 = own_report(f, fs, j);
    let below = below_report(f, es, j);
    let below2 = below_report(f, fs, j);
    let rest = f.found_from(es, j + 1);
    if i == j {
        changed_at(f, es, fs, j);
        assert(Seq::<TreeEntry>::empty() + own + below + rest =~= own + below + rest);
        assert(Seq::<TreeEntry>::empty() + own2 + below2 + rest =~= own2 + below2 + rest);
        Seq::empty()
    } else {
        let after = changed_from(f, es, fs, j, i + 1);
        let head = own_report(f, es, i) + below_report(f, es, i);
        changed_before(f, es, fs, j, i);
        assert(head + (after + own + below + rest) =~= (head + after) + own + below + rest);
        assert(head + (after + own2 + below2 + rest) =~= (head + after) + own2 + below2 + rest);
        head + after
    }
}

/// Changing the listing under one entry changes only what lies below it: the
/// walk reports the same entries before it and after everything below it.
pub proof fn changed_listing_changes_only_below(
    f: Finder,
    es: Seq<TreeEntry>,
    fs: Seq<TreeEntry>,
    j: int,
) -> (before: Seq<TreeEntry>)
    requires
        same_but_listing(es, fs, j),
    ensures
        f.found(es) == before + own_report(f, es, j) + below_report(f, es, j) + f.found_from(
            es,
            j + 1,
        ),
        f.found(fs) == before + own_report(f, fs, j) + below_report(f, fs, j) + f.found_from(
            es,
            j + 1,
        ),
        paths_of(own_report(f, es, j)) == paths_of(own_report(f, fs, j)),
{
    assert(f.reports(es[j]) == f.reports(fs[j]));
    assert(paths_of(own_report(f, es, j)) =~= paths_of(own_report(f, fs, j)));
    changed_from(f, es, fs, j, 0)
}

/// Whether `fs` is `es` with one directory, reached through the entries at the
/// positions `route` (one position per level), left unreadable.
pub open spec fn unreadable_along(es: Seq<TreeEntry>, fs: Seq<TreeEntry>, route: Seq<int>) -> bool
    decreases route.len(),
{
    if route.len() == 0 {
        false
    } else {
        let j = route[0];
        &&& same_but_listing(es, fs, j)
        &&& es[j].opens()
        &&& if route.len() == 1 {
            fs[j].listing is None
        } else {
            &&& fs[j].opens()
            &&& unreadable_along(es[j].listing->Some_0@, fs[j].listing->Some_0@, route.drop_first())
        }
    }
}

/// An unreadable directory anywhere in the tree is skipped and the walk goes
/// on: the paths reported with it unreadable are those reported with it
/// readable, in the same order, less exactly the paths reported below it.
pub proof fn unreadable_directory_is_skipped(
    f: Finder,
    es: Seq<TreeEntry>,
    fs: Seq<TreeEntry>,
    route: Seq<int>,
) -> (parts: (Seq<String>, Seq<TreeEntry>, Seq<String>))
    requires
        unreadable_along(es, fs, route),
    ensures
        paths_of(f.found(es)) == parts.0 + paths_of(parts.1) + parts.2,
        paths_of(f.found(fs)) == parts.0 + parts.2,
    decreases route.len(),
{
    let j = route[0];
    let before = changed_listing_changes_only_below(f, es, fs, j);
    let own = own_report(f, es, j);
    let own2 = own_report(f, fs, j);
    let below = below_report(f, es, j);
    let below2 = below_report(f, fs, j);
    let rest = f.found_from(es, j + 1);
    paths_of_joined(before, own, below, rest);
    paths_of_joined(before, own2, below2, rest);
    if route.len() == 1 {
        assert(below2 == Seq::<TreeEntry>::empty());
        assert(paths_of(below2) =~= Seq::<String>::empty());
        let a = paths_of(before) + paths_of(own);
        let c = paths_of(rest);
        assert(paths_of(before) + paths_of(own2) + paths_of(below2) + paths_of(rest) =~= a + c);
        (a, below, c)
    } else {
        let inner = unreadable_directory_is_skipped(
            f,
            es[j].listing->Some_0@,
            fs[j].listing->Some_0@,
            route.drop_first(),
        );
        let a = paths_of(before) + paths_of(own) + inner.0;
        let c = inner.2 + paths_of(rest);
        assert(paths_of(before) + paths_of(own) + paths_of(below) + paths_of(rest) =~= a
            + paths_of(inner.1) + c);
        assert(paths_of(before) + paths_of(own2) + paths_of(below2) + paths_of(rest) =~= a + c);
        (a, inner.1, c)
    }
}

/// An unreadable directory counts as an empty one: with the listing under the
/// entry at `j` absent, or present and empty, a walk reports the same paths.
pub proof fn unreadable_is_empty(f: Finder, es: Seq<TreeEntry>, fs: Seq<TreeEntry>, j: int)
    requires
        same_but_listing(es, fs, j),
        es[j].listing is Some,
        es[j].listing->Some_0@.len() == 0,
        fs[j].listing is None,
    ensures
        paths_of(f.found(es)) == paths_of(f.found(fs)),
{
    let before = changed_listing_changes_only_below(f, es, fs, j);
    let own = own_report(f, es, j);
    let own2 = own_report(f, fs, j);
    let rest = f.found_from(es, j + 1);
    assert(below_report(f, es, j) == Seq::<TreeEntry>::empty());
    assert(below_report(f, fs, j) == Seq::<TreeEntry>::empty());
    paths_of_joined(before, own, Seq::empty(), rest);
    paths_of_joined(before, own2, Seq::empty(), rest);
}

/// Whether `route` leads, one position per level, from the listing `es`
/// through readable directories to an entry.
pub open spec fn route_leads(es: Seq<TreeEntry>, route: Seq<int>) -> bool
    decreases route.len(),
{
    &&& route.len() > 0
    &&& 0 <= route[0] < es.len()
    &&& (route.len() == 1 || (es[route[0]].opens() && route_leads(
        es[route[0]].listing->Some_0@,
        route.drop_first(),
    )))
}

/// The entry that `route` leads to from the listing `es`.
pub open spec fn entry_along(es: Seq<TreeEntry>, route: Seq<int>) -> TreeEntry
    decreases route.len(),
{
    if route.len() <= 1 {
        es[route[0]]
    } else {
        entry_along(es[route[0]].listing->Some_0@, route.drop_first())
    }
}

/// A matching directory anywhere in the tree is reported and still entered:
/// its path comes, then the paths reported below it, all together, between
/// what the walk reports before and after.
pub proof fn matched_directory_is_entered_anywhere(
    f: Finder,
    es: Seq<TreeEntry>,
    route: Seq<int>,
) -> (parts: (Seq<String>, Seq<String>))
    requires
        route_leads(es, route),
        f.reports(entry_along(es, route)),
        entry_along(es, route).opens(),
    ensures
        paths_of(f.found(es)) == parts.0 + seq![entry_along(es, route).path] + paths_of(
            f.found(entry_along(es, route).listing->Some_0@),
        ) + parts.1,
    decreases route.len(),
{
    let j = route[0];
    let d = entry_along(es, route);
    let before = changed_listing_changes_only_below(f, es, es, j);
    let own = own_report(f, es, j);
    let below = below_report(f, es, j);
    let rest = f.found_from(es, j + 1);
    paths_of_joined(before, own, below, rest);
    let inside = paths_of(f.found(d.listing->Some_0@));
    if route.len() == 1 {
        assert(own == seq![d]);
        assert(paths_of(own) =~= seq![d.path]);
        let a = paths_of(before);
        let c = paths_of(rest);
        assert(paths_of(before) + paths_of(own) + paths_of(below) + paths_of(rest) =~= a
            + seq![d.path] + inside + c);
        (a, c)
    } else {
        let inner = matched_directory_is_entered_anywhere(
            f,
            es[j].listing->Some_0@,
            route.drop_first(),
        );
        let a = paths_of(before) + paths_of(own) + inner.0;
        let c = inner.1 + paths_of(rest);
        assert(paths_of(before) + paths_of(own) + paths_of(below) + paths_of(rest) =~= a
            + seq![d.path] + inside + c);
        (a, c)
    }
}

/// An element of three joined sequences lies in one of them.
proof fn in_joined(a: Seq<TreeEntry>, b: Seq<TreeEntry>, c: Seq<TreeEntry>, e: TreeEntry)
    ensures
        (a + b + c).contains(e) <==> a.contains(e) || b.contains(e) || c.contains(e),
{
    let s = a + b + c;
    if s.contains(e) {
        let k = choose|k: int| 0 <= k < s.len() && s[k] == e;
        if k < a.len() {
            assert(a[k] == e);
        } else if k < a.len() + b.len() {
            assert(b[k - a.len()] == e);
        } else {
            assert(c[k - a.len() - b.len()] == e);
        }
    }
    if a.contains(e) {
        let k = choose|k: int| 0 <= k < a.len() && a[k] == e;
        assert(s[k] == e);
    }
    if b.contains(e) {
        let k = choose|k: int| 0 <= k < b.len() && b[k] == e;
        assert(s[a.len() + k] == e);
    }
    if c.contains(e) {
        let k = choose|k: int| 0 <= k < c.len() && c[k] == e;
        assert(s[a.len() + b.len() + k] == e);
    }
}

/// A walk reports exactly the entries it visits that the finder reports.
pub proof fn found_is_visited_and_reported(f: Finder, es: Seq<TreeEntry>, i: int, e: TreeEntry)
    ensures
        f.found_from(es, i).contains(e) <==> Finder::visited_from(es, i).contains(e) && f.reports(
            e,
        ),
    decreases es, es.len() - i,
{
    if 0 <= i < es.len() {
        let x = es[i];
        let own = if f.reports(x) { seq![x] } else { Seq::<TreeEntry>::empty() };
        let below = if x.opens() { f.found(x.listing->Some_0@) } else { Seq::<TreeEntry>::empty() };
        let vbelow = if x.opens() { Finder::visited_from(x.listing->Some_0@, 0) } else { Seq::<TreeEntry>::empty() };
        in_joined(own, below, f.found_from(es, i + 1), e);
        in_joined(seq![x], vbelow, Finder::visited_from(es, i + 1), e);
        if x.opens() {
            found_is_visited_and_reported(f, x.listing->Some_0@, 0, e);
        }
        found_is_visited_and_reported(f, es, i + 1, e);
        assert(seq![x].contains(e) <==> e == x) by {
            if e == x {
                assert(seq![x][0] == e);
            }
        }
        assert(own.contains(e) <==> e == x && f.reports(x)) by {
            if e == x && f.reports(x) {
                assert(own[0] == e);
            }
        }
    }
}

/// A search with a pattern without `*` or `?` reports a visited entry
/// exactly when its name is that pattern, character for character, and the
/// filter admits its type: no substring, prefix or case-folded match.
pub proof fn literal_search_reports_exact_names(
    f: Finder,
    p: Seq<char>,
    tree: Seq<TreeEntry>,
    e: TreeEntry,
)
    requires
        f.pattern.built_from(p),
        !has_wildcard(p),
    ensures
        f.found(tree).contains(e) <==> Finder::visited_from(tree, 0).contains(e) && e.name is Some
            && e.name->Some_0@ == p && f.file_type.admits(e.kind),
{
    found_is_visited_and_reported(f, tree, 0, e);
}

/// Every path that a search with any filter reports, a search with no filter
/// (`Any`) set up from the same pattern text reports too.
pub proof fn filtered_paths_within_any(
    f: Finder,
    any: Finder,
    p: Seq<char>,
    tree: Seq<TreeEntry>,
    path: String,
)
    requires
        f.pattern.built_from(p),
        any.pattern.built_from(p),
        any.file_type == TypeFilter::Any,
        paths_of(f.found(tree)).contains(path),
    ensures
        paths_of(any.found(tree)).contains(path),
{
    assert forall|n: Seq<char>| #[trigger] f.pattern.accepts(n) == any.pattern.accepts(n) by {
        same_text_same_names(f.pattern, any.pattern, p, n);
    }
    let pf = paths_of(f.found(tree));
    let i = choose|i: int| 0 <= i < pf.len() && pf[i] == path;
    let e = f.found(tree)[i];
    assert(f.found(tree).contains(e));
    filtered_within_any(f, any, tree, 0, e);
    let m = choose|m: int| 0 <= m < any.found(tree).len() && any.found(tree)[m] == e;
    assert(paths_of(any.found(tree))[m] == path);
}

/// Whether no two different entries that a walk over `tree` visits share a
/// path, as on a real file system.
pub open spec fn paths_unique(tree: Seq<TreeEntry>) -> bool {
    forall|a: TreeEntry, b: TreeEntry|
        Finder::visited_from(tree, 0).contains(a) && Finder::visited_from(tree, 0).contains(b)
            && a.path == b.path ==> a == b
}

/// Over a tree whose paths are unique, searches for `File`, `Directory` and
/// `Symlink` never report the same path.
pub proof fn type_filters_report_disjoint_paths(
    file: Finder,
    dir: Finder,
    link: Finder,
    tree: Seq<TreeEntry>,
    path: String,
)
    requires
        paths_unique(tree),
        file.file_type == TypeFilter::File,
        dir.file_type == TypeFilter::Directory,
        link.file_type == TypeFilter::Symlink,
    ensures
        !(paths_of(file.found(tree)).contains(path) && paths_of(dir.found(tree)).contains(path)),
        !(paths_of(file.found(tree)).contains(path) && paths_of(link.found(tree)).contains(path)),
        !(paths_of(dir.found(tree)).contains(path) && paths_of(link.found(tree)).contains(path)),
{
    path_disjoint(file, dir, tree, path);
    path_disjoint(file, link, tree, path);
    path_disjoint(dir, link, tree, path);
}

/// Two searches with filters that admit no type in common report no common
/// path over a tree whose paths are unique.
proof fn path_disjoint(f: Finder, g: Finder, tree: Seq<TreeEntry>, path: String)
    requires
        paths_unique(tree),
        forall|k: EntryKind| !(f.file_type.admits(k) && g.file_type.admits(k)),
    ensures
        !(paths_of(f.found(tree)).contains(path) && paths_of(g.found(tree)).contains(path)),
{
    let pf = paths_of(f.found(tree));
    let pg = paths_of(g.found(tree));
    if pf.contains(path) && pg.contains(path) {
        let i = choose|i: int| 0 <= i < pf.len() && pf[i] == path;
        let j = choose|j: int| 0 <= j < pg.len() && pg[j] == path;
        let a = f.found(tree)[i];
        let b = g.found(tree)[j];
        assert(f.found(tree).contains(a));
        assert(g.found(tree).contains(b));
        found_is_visited_and_reported(f, tree, 0, a);
        found_is_visited_and_reported(g, tree, 0, b);
        assert(a == b);
        assert(f.file_type.admits(a.kind) && g.file_type.admits(a.kind));
    }
}

/// Three joined sequences hold no repeat exactly when none of them does and
/// no two of them share an element.
proof fn no_repeats_joined(a: Seq<String>, b: Seq<String>, c: Seq<String>)
    ensures
        (a + b + c).no_duplicates() <==> a.no_duplicates() && b.no_duplicates()
            && c.no_duplicates() && (forall|x: String| !(a.contains(x) && b.contains(x)))
            && (forall|x: String| !(a.contains(x) && c.contains(x)))
            && (forall|x: String| !(b.contains(x) && c.contains(x))),
{
    let s = a + b + c;
    let na = a.len();
    let nb = b.len();
    if s.no_duplicates() {
        assert forall|i: int, j: int| 0 <= i < a.len() && 0 <= j < a.len() && i != j implies a[i]
            != a[j] by {
            assert(s[i] == a[i] && s[j] == a[j]);
        }
        assert forall|i: int, j: int| 0 <= i < b.len() && 0 <= j < b.len() && i != j implies b[i]
            != b[j] by {
            assert(s[na + i] == b[i] && s[na + j] == b[j]);
        }
        assert forall|i: int, j: int| 0 <= i < c.len() && 0 <= j < c.len() && i != j implies c[i]
            != c[j] by {
            assert(s[na + nb + i] == c[i] && s[na + nb + j] == c[j]);
        }
        assert forall|x: String| !(a.contains(x) && b.contains(x)) by {
            if a.contains(x) && b.contains(x) {
                let i = choose|i: int| 0 <= i < a.len() && a[i] == x;
                let j = choose|j: int| 0 <= j < b.len() && b[j] == x;
                assert(s[i] == x && s[na + j] == x);
            }
        }
        assert forall|x: String| !(a.contains(x) && c.contains(x)) by {
            if a.contains(x) && c.contains(x) {
                let i = choose|i: int| 0 <= i < a.len() && a[i] == x;
                let j = choose|j: int| 0 <= j < c.len() && c[j] == x;
                assert(s[i] == x && s[na + nb + j] == x);
            }
        }
        assert forall|x: String| !(b.contains(x) && c.contains(x)) by {
            if b.contains(x) && c.contains(x) {
                let i = choose|i: int| 0 <= i < b.len() && b[i] == x;
                let j = choose|j: int| 0 <= j < c.len() && c[j] == x;
                assert(s[na + i] == x && s[na + nb + j] == x);
            }
        }
    }
    if a.no_duplicates() && b.no_duplicates() && c.no_duplicates() && (forall|x: String|
        !(a.contains(x) && b.contains(x))) && (forall|x: String| !(a.contains(x) && c.contains(x)))
        && (forall|x: String| !(b.contains(x) && c.contains(x))) {
        assert forall|i: int, j: int| 0 <= i < s.len() && 0 <= j < s.len() && i != j implies s[i]
            != s[j] by {
            if i < na && j < na {
                assert(s[i] == a[i] && s[j] == a[j]);
            } else if na <= i < na + nb && na <= j < na + nb {
                assert(s[i] == b[i - na] && s[j] == b[j - na]);
            } else if i >= na + nb && j >= na + nb {
                assert(s[i] == c[i - na - nb] && s[j] == c[j - na - nb]);
            } else {
                let x = s[i];
                if i < na {
                    assert(a.contains(x));
                } else if i < na + nb {
                    assert(b[i - na] == x);
                    assert(b.contains(x));
                } else {
                    assert(c[i - na - nb] == x);
                    assert(c.contains(x));
                }
                if s[j] == x {
                    if j < na {
                        assert(a[j] == x);
                    } else if j < na + nb {
                        assert(b[j - na] == x);
                    } else {
                        assert(c[j - na - nb] == x);
                    }
                }
            }
        }
    }
}

/// Every path a walk reports is the path of an entry it visits.
proof fn found_paths_visited(f: Finder, es: Seq<TreeEntry>, i: int, path: String)
    requires
        paths_of(f.found_from(es, i)).contains(path),
    ensures
        paths_of(Finder::visited_from(es, i)).contains(path),
{
    let pf = paths_of(f.found_from(es, i));
    let k = choose|k: int| 0 <= k < pf.len() && pf[k] == path;
    let e = f.found_from(es, i)[k];
    assert(f.found_from(es, i).contains(e));
    found_is_visited_and_reported(f, es, i, e);
    let v = Finder::visited_from(es, i);
    let m = choose|m: int| 0 <= m < v.len() && v[m] == e;
    assert(paths_of(v)[m] == path);
}

/// Where no two visits of a walk share a path, the walk reports no path
/// twice.
pub proof fn no_path_reported_twice(f: Finder, es: Seq<TreeEntry>, i: int)
    requires
        paths_of(Finder::visited_from(es, i)).no_duplicates(),
    ensures
        paths_of(f.found_from(es, i)).no_duplicates(),
    decreases es, es.len() - i,
{
    if 0 <= i < es.len() {
        let x = es[i];
        let own = if f.reports(x) { seq![x] } else { Seq::<TreeEntry>::empty() };
        let below = if x.opens() { f.found(x.listing->Some_0@) } else { Seq::<TreeEntry>::empty() };
        let rest = f.found_from(es, i + 1);
        let vbelow = if x.opens() { Finder::visited_from(x.listing->Some_0@, 0) } else { Seq::<TreeEntry>::empty() };
        let vrest = Finder::visited_from(es, i + 1);
        assert(paths_of(seq![x] + vbelow + vrest) =~= paths_of(seq![x]) + paths_of(vbelow) + paths_of(vrest));
        assert(paths_of(own + below + rest) =~= paths_of(own) + paths_of(below) + paths_of(rest));
        no_repeats_joined(paths_of(seq![x]), paths_of(vbelow), paths_of(vrest));
        no_repeats_joined(paths_of(own), paths_of(below), paths_of(rest));
        if x.opens() {
            no_path_reported_twice(f, x.listing->Some_0@, 0);
        }
        no_path_reported_twice(f, es, i + 1);
        assert(paths_of(below).no_duplicates());
        assert(paths_of(own).no_duplicates());
        assert forall|p: String| paths_of(own).contains(p) implies paths_of(seq![x]).contains(p) by {
            assert(paths_of(own)[0] == p);
            assert(paths_of(seq![x])[0] == p);
        }
        assert forall|p: String| paths_of(below).contains(p) implies paths_of(vbelow).contains(p) by {
            found_paths_visited(f, x.listing->Some_0@, 0, p);
        }
        assert forall|p: String| paths_of(rest).contains(p) implies paths_of(vrest).contains(p) by {
            found_paths_visited(f, es, i + 1, p);
        }
    }
}

} // verus!
