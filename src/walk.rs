//! A depth-first walk that is driven one step at a time, so that listings can
//! be read lazily and each match handed out as soon as it is found.
use vstd::prelude::*;

use crate::filter::EntryKind;
use crate::finder::Finder;
use crate::finder::TreeEntry;

verus! {

/// The outcome of testing one entry.
pub struct Visit {
    /// The entry's full path.
    pub path: String,
    /// Whether the entry is reported.
    pub report: bool,
    /// Whether the entry is a directory, whose listing the walk wants next.
    pub descend: bool,
}

/// The visit that `f` makes of the entry `e`.
pub open spec fn visit_of(f: Finder, e: TreeEntry) -> Visit {
    Visit { path: e.path, report: f.reports(e), descend: e.kind == EntryKind::Directory }
}

/// The pending listings with the exhausted ones on top taken away.
pub open spec fn live(fs: Seq<Seq<TreeEntry>>) -> Seq<Seq<TreeEntry>>
    decreases fs.len(),
{
    if fs.len() > 0 && fs.last().len() == 0 {
        live(fs.drop_last())
    } else {
        fs
    }
}

/// A listing and how far the walk has gone through it.
struct Frame {
    entries: Vec<TreeEntry>,
    next: usize,
}

impl Frame {
    spec fn rest(self) -> Seq<TreeEntry> {
        self.entries@.subrange(self.next as int, self.entries@.len() as int)
    }
}

/// A walk in progress: a stack of listings, the innermost on top.
pub struct Walk {
    finder: Finder,
    frames: Vec<Frame>,
}

impl Walk {
    /// The search that decides what is reported.
    pub closed spec fn finder(self) -> Finder {
        self.finder
    }

    /// The entries still to visit in each pending listing, outermost first.
    pub closed spec fn pending(self) -> Seq<Seq<TreeEntry>> {
        self.frames@.map_values(|fr: Frame| fr.rest())
    }

    /// Each listing's position lies within it.
    pub closed spec fn wf(self) -> bool {
        forall|k: int| 0 <= k < self.frames@.len() ==> #[trigger] self.frames@[k].next
            <= self.frames@[k].entries@.len()
    }

    /// Starts a walk over the listing of the root directory.
    pub fn new(finder: Finder, root: Vec<TreeEntry>) -> (r: Walk)
        ensures
            r.wf(),
            r.finder() == finder,
            r.pending() == seq![root@],
    {
        let mut frames: Vec<Frame> = Vec::new();
        frames.push(Frame { entries: root, next: 0 });
        let r = Walk { finder, frames };
        assert(r.frames@[0].rest() =~= root@);
        assert(r.pending() =~= seq![root@]);
        r
    }

    /// Hands the walk the listing of the directory it visited last; an
    /// unreadable directory is handed an empty listing.
    pub fn enter(&mut self, listing: Vec<TreeEntry>)
        requires
            old(self).wf(),
        ensures
            final(self).wf(),
            final(self).finder() == old(self).finder(),
            final(self).pending() == old(self).pending().push(listing@),
    {
        let ghost l = listing@;
        self.frames.push(Frame { entries: listing, next: 0 });
        assert(self.frames@.last().rest() =~= l);
        assert(self.pending() =~= old(self).pending().push(l));
    }

    /// Visits the next entry: the first one left in the innermost listing that
    /// has any left. `None` once every listing is exhausted.
    pub fn next(&mut self) -> (r: Option<Visit>)
        requires
            old(self).wf(),
        ensures
            final(self).wf(),
            final(self).finder() == old(self).finder(),
            ({
                let fs = live(old(self).pending());
                if fs.len() == 0 {
                    r is None && final(self).pending() == fs
                } else {
                    r == Some(visit_of(old(self).finder(), fs.last()[0]))
                        && final(self).pending() == fs.update(
                        fs.len() - 1,
                        fs.last().drop_first(),
                    )
                }
            }),
    {
        loop
            invariant
                self.wf(),
                self.finder == old(self).finder,
                live(self.pending()) == live(old(self).pending()),
            decreases self.frames@.len(),
        {
            let n = self.frames.len();
            if n == 0 {
                assert(self.pending() =~= Seq::<Seq<TreeEntry>>::empty());
                return None;
            }
            let ghost before = self.pending();
            let mut fr = self.frames.pop().unwrap();
            assert(before =~= self.pending().push(fr.rest()));
            if fr.next < fr.entries.len() {
                let k = fr.next;
                let e = &fr.entries[k];
                let v = Visit {
                    path: e.path.clone(),
                    report: self.finder.reports_entry(e),
                    descend: e.kind == EntryKind::Directory,
                };
                proof {
                    assert(before.last() == fr.rest());
                    assert(live(before) == before);
                    assert(fr.rest()[0] == fr.entries@[k as int]);
                }
                fr.next = k + 1;
                let ghost rest = fr.rest();
                self.frames.push(fr);
                proof {
                    assert(rest =~= before.last().drop_first());
                    assert(self.pending() =~= before.update(before.len() - 1, rest));
                }
                return Some(v);
            }
            proof {
                assert(fr.rest().len() == 0);
                assert(before.drop_last() =~= self.pending());
            }
        }
    }
}

/// What a walk with the listings `fs` pending has still to report: the rest
/// of the innermost listing first, then the rest of each enclosing one.
pub open spec fn still_to_report(f: Finder, fs: Seq<Seq<TreeEntry>>) -> Seq<TreeEntry>
    decreases fs.len(),
{
    if fs.len() == 0 {
        Seq::empty()
    } else {
        f.found(fs.last()) + still_to_report(f, fs.drop_last())
    }
}

/// The pending listings after a visit of `e` from `after`: the listing of a
/// directory is entered (an empty one where it cannot be read).
pub open spec fn entered(after: Seq<Seq<TreeEntry>>, e: TreeEntry) -> Seq<Seq<TreeEntry>> {
    if e.kind == EntryKind::Directory {
        after.push(
            if e.listing is Some {
                e.listing->Some_0@
            } else {
                Seq::empty()
            },
        )
    } else {
        after
    }
}

/// Exhausted listings have nothing left to report.
proof fn live_keeps_what_is_left(f: Finder, fs: Seq<Seq<TreeEntry>>)
    ensures
        still_to_report(f, live(fs)) == still_to_report(f, fs),
    decreases fs.len(),
{
    if fs.len() > 0 && fs.last().len() == 0 {
        live_keeps_what_is_left(f, fs.drop_last());
        assert(f.found(fs.last()) == Seq::<TreeEntry>::empty());
        assert(still_to_report(f, fs) =~= still_to_report(f, fs.drop_last()));
    }
}

/// Walking a listing from its second entry is walking its tail.
proof fn tail_walk(f: Finder, es: Seq<TreeEntry>, k: int)
    requires
        es.len() > 0,
        0 <= k,
    ensures
        f.found_from(es.drop_first(), k) == f.found_from(es, k + 1),
    decreases es.len() - k,
{
    if k < es.len() - 1 {
        assert(es.drop_first()[k] == es[k + 1]);
        tail_walk(f, es, k + 1);
    }
}

/// Driving a walk loses and invents nothing: when the walk visits an entry
/// and the caller enters that entry's listing if it is a directory, what was
/// left to report is the entry (when it is reported) followed by what is left
/// afterwards; once `next` finds nothing, nothing was left. So a walk started
/// on a root listing reports exactly the entries that `Finder::found` gives
/// for that listing, in the same order.
pub proof fn walk_step_reports_what_is_left(f: Finder, fs: Seq<Seq<TreeEntry>>)
    ensures
        live(fs).len() == 0 ==> still_to_report(f, fs) == Seq::<TreeEntry>::empty(),
        live(fs).len() > 0 ==> ({
            let ls = live(fs);
            let e = ls.last()[0];
            let after = ls.update(ls.len() - 1, ls.last().drop_first());
            still_to_report(f, fs) == (if f.reports(e) {
                seq![e]
            } else {
                Seq::empty()
            }) + still_to_report(f, entered(after, e))
        }),
{
    live_keeps_what_is_left(f, fs);
    let ls = live(fs);
    if ls.len() > 0 {
        let l = ls.last();
        let e = l[0];
        let after = ls.update(ls.len() - 1, l.drop_first());
        let own = if f.reports(e) { seq![e] } else { Seq::<TreeEntry>::empty() };
        let below = if e.opens() { f.found(e.listing->Some_0@) } else { Seq::<TreeEntry>::empty() };
        let outer = still_to_report(f, ls.drop_last());
        assert(live(fs) == ls);
        assert(ls.last().len() > 0) by {
            live_is_nonempty_on_top(fs);
        }
        assert(f.found(l) == own + below + f.found_from(l, 1));
        tail_walk(f, l, 0);
        assert(after.drop_last() =~= ls.drop_last());
        assert(after.last() == l.drop_first());
        let tail = f.found(l.drop_first());
        assert(still_to_report(f, after) == tail + outer);
        assert(still_to_report(f, ls) == own + below + tail + outer);
        if e.kind == EntryKind::Directory {
            let pushed = entered(after, e);
            assert(pushed.drop_last() =~= after);
            if e.listing is None {
                assert(f.found(Seq::<TreeEntry>::empty()) == Seq::<TreeEntry>::empty());
            }
            assert(still_to_report(f, pushed) == below + (tail + outer));
        }
        assert(own + below + tail + outer =~= own + (below + (tail + outer)));
        assert(own + (Seq::<TreeEntry>::empty() + (tail + outer)) =~= own + (tail + outer));
    }
}

/// The top of the live listings, if any, still has entries.
proof fn live_is_nonempty_on_top(fs: Seq<Seq<TreeEntry>>)
    ensures
        live(fs).len() > 0 ==> live(fs).last().len() > 0,
    decreases fs.len(),
{
    if fs.len() > 0 && fs.last().len() == 0 {
        live_is_nonempty_on_top(fs.drop_last());
    }
}

/// A walk started on a root listing has the whole search of that listing left
/// to report.
pub proof fn walk_starts_with_whole_search(f: Finder, root: Seq<TreeEntry>)
    ensures
        still_to_report(f, seq![root]) == f.found(root),
{
    let fs = seq![root];
    assert(fs.drop_last() =~= Seq::<Seq<TreeEntry>>::empty());
    assert(fs.last() == root);
    assert(still_to_report(f, fs.drop_last()) == Seq::<TreeEntry>::empty());
    assert(f.found(root) + Seq::<TreeEntry>::empty() =~= f.found(root));
}

} // verus!
