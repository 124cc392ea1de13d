//! The staleness classifier, applied to a stored entry list on load, before
//! it takes part in a merge. An entry older than the staleness window is no
//! longer new; one at or past the expiry window is dropped.

use vstd::prelude::*;
use crate::models::{List, ListV, list_views};
use crate::merge::{has_link, unique_links, lemma_has_link_push, lemma_unique_push};

verus! {

/// The staleness window in seconds: past it, an entry is no longer "new".
pub const STALE_SECS: i64 = 28800;

/// The expiry window in seconds: at or past it, an entry is dropped.
pub const EXPIRE_SECS: i64 = 172800;

/// Seconds since the entry was last observed.
pub open spec fn age_of(e: ListV, now: i64) -> int {
    now as int - e.timestamp as int
}

/// `e` with its `new` flag cleared.
pub open spec fn not_new(e: ListV) -> ListV {
    ListV {
        timestamp: e.timestamp,
        title: e.title,
        datetime: e.datetime,
        link: e.link,
        images: e.images,
        more: e.more,
        new: false,
    }
}

/// What the classifier does to one entry: dropped at or past the expiry
/// window, no longer new past the staleness window, unchanged otherwise.
pub open spec fn classify_entry(e: ListV, now: i64) -> Option<ListV> {
    if age_of(e, now) < EXPIRE_SECS as int {
        if age_of(e, now) > STALE_SECS as int {
            Some(not_new(e))
        } else {
            Some(e)
        }
    } else {
        None
    }
}

/// The classified entry list.
pub open spec fn classified(s: Seq<ListV>, now: i64) -> Seq<ListV> {
    s.filter_map(|e: ListV| classify_entry(e, now))
}

/// Applies the staleness classifier to a stored entry list.
pub fn classify_entries(list: Vec<List>, now: i64) -> (r: Vec<List>)
    ensures
        list_views(r@) == classified(list_views(list@), now),
{
    let mut out: Vec<List> = Vec::new();
    let mut i: usize = 0;
    proof {
        assert(list_views(list@).subrange(0, 0) =~= Seq::<ListV>::empty());
        assert(list_views(out@) =~= Seq::<ListV>::empty());
        assert(classified(Seq::<ListV>::empty(), now) =~= Seq::<ListV>::empty());
    }
    while i < list.len()
        invariant
            i <= list@.len(),
            list_views(out@) == classified(list_views(list@).subrange(0, i as int), now),
        decreases list@.len() - i,
    {
        let ghost lv = list_views(list@);
        let ghost pre = lv.subrange(0, i as int);
        let ghost pre1 = lv.subrange(0, i + 1);
        proof {
            assert(pre1.drop_last() =~= pre);
            assert(pre1.last() == lv[i as int]);
        }
        let e = &list[i];
        let age: i128 = now as i128 - e.timestamp as i128;
        let ghost before = list_views(out@);
        if age < EXPIRE_SECS as i128 {
            if age > STALE_SECS as i128 {
                let kept = List {
                    timestamp: e.timestamp,
                    title: e.title.clone(),
                    datetime: e.datetime.clone(),
                    link: e.link.clone(),
                    images: e.images.clone(),
                    more: e.more.clone(),
                    new: false,
                };
                assert(kept@ == not_new(lv[i as int]));
                out.push(kept);
            } else {
                let c = list[i].clone();
                out.push(c);
            }
            proof {
                assert(list_views(out@) =~= before.push(out@[out@.len() - 1]@));
                assert(list_views(out@) =~= classified(pre, now) + seq![
                    classify_entry(lv[i as int], now).unwrap(),
                ]);
            }
        } else {
            assert(classified(pre1, now) == classified(pre, now));
        }
        i = i + 1;
    }
    assert(list_views(list@).subrange(0, list@.len() as int) =~= list_views(list@));
    out
}

proof fn lemma_classified_retains(s: Seq<ListV>, now: i64, j: int)
    requires
        0 <= j < s.len(),
        age_of(s[j], now) < EXPIRE_SECS as int,
    ensures
        classified(s, now).contains(classify_entry(s[j], now).unwrap()),
    decreases s.len(),
{
    let f = |e: ListV| classify_entry(e, now);
    let rest = s.drop_last();
    let x = classify_entry(s[j], now).unwrap();
    if j == s.len() - 1 {
        assert(s.last() == s[j]);
        assert(classified(s, now) == rest.filter_map(f) + seq![x]);
        assert((rest.filter_map(f) + seq![x])[rest.filter_map(f).len() as int] == x);
    } else {
        assert(rest[j] == s[j]);
        lemma_classified_retains(rest, now, j);
        match f(s.last()) {
            Some(y) => {
                assert(classified(s, now) == rest.filter_map(f) + seq![y]);
                let k = choose|k: int|
                    0 <= k < rest.filter_map(f).len() && rest.filter_map(f)[k] == x;
                assert((rest.filter_map(f) + seq![y])[k] == x);
            },
            None => {
                assert(classified(s, now) == rest.filter_map(f));
            },
        }
    }
}

/// Staleness monotonicity and expiry, over the classifier's output:
/// every classified entry is younger than the expiry window; one past the
/// staleness window is retained with `new` cleared; one within the staleness
/// window is a stored entry unchanged (its `new` flag kept); and every stored
/// entry younger than the expiry window is retained in classified form.
pub proof fn lemma_classifier_windows(s: Seq<ListV>, now: i64)
    ensures
        forall|k: int|
            0 <= k < classified(s, now).len() ==> age_of(
                #[trigger] classified(s, now)[k],
                now,
            ) < EXPIRE_SECS as int,
        forall|k: int|
            0 <= k < classified(s, now).len() && age_of(classified(s, now)[k], now)
                > STALE_SECS as int ==> (#[trigger] classified(s, now)[k]).new == false,
        forall|k: int|
            0 <= k < classified(s, now).len() && age_of(classified(s, now)[k], now)
                <= STALE_SECS as int ==> s.contains(#[trigger] classified(s, now)[k]),
        forall|j: int|
            0 <= j < s.len() && age_of(#[trigger] s[j], now) < EXPIRE_SECS as int ==> classified(
                s,
                now,
            ).contains(classify_entry(s[j], now).unwrap()),
{
    let f = |e: ListV| classify_entry(e, now);
    let c = classified(s, now);
    assert forall|k: int| 0 <= k < c.len() implies age_of(c[k], now) < EXPIRE_SECS as int && (
    age_of(c[k], now) > STALE_SECS as int ==> c[k].new == false) && (age_of(c[k], now)
        <= STALE_SECS as int ==> s.contains(c[k])) by {
        assert(c.contains(c[k]));
        s.lemma_filter_map_contains(f, c[k]);
        let t = choose|t: ListV| s.contains(t) && f(t) == Some(c[k]);
        assert(age_of(t, now) < EXPIRE_SECS as int);
        assert(c[k].timestamp == t.timestamp);
        if age_of(c[k], now) <= STALE_SECS as int {
            assert(c[k] == t);
        }
    }
    assert forall|j: int|
        0 <= j < s.len() && age_of(s[j], now) < EXPIRE_SECS as int implies c.contains(
        classify_entry(s[j], now).unwrap(),
    ) by {
        lemma_classified_retains(s, now, j);
    }
}

/// The classifier invents no entries: every link of its output is a link of
/// the stored state, and a stored state without duplicate links classifies
/// to one without duplicate links. With the merge's own uniqueness law, the
/// per-source invariant survives a whole cycle: load, classify, merge, store.
pub proof fn lemma_classifier_preserves_links(s: Seq<ListV>, now: i64)
    ensures
        forall|l: Seq<char>| #[trigger] has_link(classified(s, now), l) ==> has_link(s, l),
        unique_links(s) ==> unique_links(classified(s, now)),
    decreases s.len(),
{
    let f = |e: ListV| classify_entry(e, now);
    if s.len() == 0 {
    } else {
        let rest = s.drop_last();
        lemma_classifier_preserves_links(rest, now);
        assert(unique_links(s) ==> unique_links(rest)) by {
            assert(forall|i: int, j: int|
                0 <= i < j < rest.len() ==> rest[i] == s[i] && rest[j] == s[j]);
        }
        let cr = rest.filter_map(f);
        assert forall|l: Seq<char>| #[trigger] has_link(rest, l) implies has_link(s, l) by {
            if has_link(rest, l) {
                let i = choose|i: int| 0 <= i < rest.len() && rest[i].link == l;
                assert(s[i].link == l);
            }
        }
        match f(s.last()) {
            Some(x) => {
                assert(classified(s, now) == cr + seq![x]);
                assert(cr + seq![x] =~= cr.push(x));
                assert(x.link == s.last().link);
                assert forall|l: Seq<char>| #[trigger] has_link(classified(s, now), l) implies
                    has_link(s, l) by {
                    lemma_has_link_push(cr, x, l);
                    assert(cr == classified(rest, now));
                    if has_link(cr, l) {
                        assert(has_link(classified(rest, now), l));
                        assert(has_link(rest, l));
                    } else {
                        assert(s[s.len() - 1].link == l);
                    }
                }
                if unique_links(s) {
                    assert(!has_link(cr, s.last().link)) by {
                        if has_link(cr, s.last().link) {
                            assert(has_link(rest, s.last().link));
                            let i = choose|i: int|
                                0 <= i < rest.len() && rest[i].link == s.last().link;
                            assert(s[i].link == s[s.len() - 1].link);
                        }
                    }
                    lemma_unique_push(cr, x);
                }
            },
            None => {
                assert(classified(s, now) == cr);
                assert forall|l: Seq<char>| #[trigger] has_link(classified(s, now), l) implies
                    has_link(s, l) by {
                    assert(has_link(classified(rest, now), l));
                    assert(has_link(rest, l));
                }
            },
        }
    }
}

} // verus!
