//! The freshness-priority merge/dedup engine. `newer_to_list` returns the
//! newly discovered entries of a fresh scrape; `merge_to_list` combines a
//! fresh scrape with the stored state, deduplicating by `link`, letting the
//! fresh copy of a re-observed entry win, and ordering the result by
//! `timestamp` descending with a stable sort.

use vstd::prelude::*;
use crate::models::{List, ListV, list_views};
use crate::text::str_eq;

verus! {

/// Some entry of `s` has link `l`.
pub open spec fn has_link(s: Seq<ListV>, l: Seq<char>) -> bool {
    exists|i: int| 0 <= i < s.len() && s[i].link == l
}

/// The first entry of `s` whose link is `l` (meaningful only when one exists).
pub open spec fn first_with_link(s: Seq<ListV>, l: Seq<char>) -> ListV
    decreases s.len(),
{
    if s.len() == 0 {
        arbitrary()
    } else if s[0].link == l {
        s[0]
    } else {
        first_with_link(s.drop_first(), l)
    }
}

/// `s` with every entry dropped whose link already occurred earlier.
pub open spec fn dedup_by_link(s: Seq<ListV>) -> Seq<ListV>
    decreases s.len(),
{
    if s.len() == 0 {
        Seq::empty()
    } else if has_link(s.drop_last(), s.last().link) {
        dedup_by_link(s.drop_last())
    } else {
        dedup_by_link(s.drop_last()).push(s.last())
    }
}

/// The entries of `fresh` seen for the first time this cycle: duplicates
/// within `fresh` collapse to the first occurrence, and every link already
/// present in `stored` is excluded.
pub open spec fn newly_discovered(fresh: Seq<ListV>, stored: Seq<ListV>) -> Seq<ListV> {
    dedup_by_link(fresh).filter(|e: ListV| !has_link(stored, e.link))
}

/// A stored entry re-observed in `fresh` is replaced by its fresh copy
/// (freshness priority); any other stored entry stays as it is.
pub open spec fn refresh_entry(fresh: Seq<ListV>, e: ListV) -> ListV {
    if has_link(fresh, e.link) {
        first_with_link(fresh, e.link)
    } else {
        e
    }
}

/// The stored state after freshness priority is applied entrywise.
pub open spec fn refreshed_stored(fresh: Seq<ListV>, stored: Seq<ListV>) -> Seq<ListV> {
    stored.map_values(|e: ListV| refresh_entry(fresh, e))
}

/// `e` inserted into `s` after every entry whose timestamp is not below
/// `e`'s: the insertion step of a stable descending sort.
pub open spec fn insert_desc(s: Seq<ListV>, e: ListV) -> Seq<ListV>
    decreases s.len(),
{
    if s.len() == 0 {
        seq![e]
    } else if s[0].timestamp >= e.timestamp {
        seq![s[0]] + insert_desc(s.drop_first(), e)
    } else {
        seq![e] + s
    }
}

/// Stable insertion sort by timestamp, most recent first.
pub open spec fn sort_desc(s: Seq<ListV>) -> Seq<ListV>
    decreases s.len(),
{
    if s.len() == 0 {
        Seq::empty()
    } else {
        insert_desc(sort_desc(s.drop_last()), s.last())
    }
}

/// The merged state: newly discovered entries and the refreshed stored
/// entries, ordered by timestamp descending.
pub open spec fn merged_state(fresh: Seq<ListV>, stored: Seq<ListV>) -> Seq<ListV> {
    sort_desc(newly_discovered(fresh, stored) + refreshed_stored(fresh, stored))
}

/// Timestamps never increase along `s`.
pub open spec fn sorted_desc(s: Seq<ListV>) -> bool {
    forall|i: int, j: int| 0 <= i < j < s.len() ==> s[i].timestamp >= s[j].timestamp
}

/// No two entries of `s` share a link.
pub open spec fn unique_links(s: Seq<ListV>) -> bool {
    forall|i: int, j: int| 0 <= i < j < s.len() ==> s[i].link != s[j].link
}

/// Whether some entry of `v` has link `l`.
fn link_in(v: &Vec<List>, l: &String) -> (r: bool)
    ensures
        r == has_link(list_views(v@), l@),
{
    let mut i: usize = 0;
    while i < v.len()
        invariant
            i <= v@.len(),
            forall|k: int| 0 <= k < i ==> list_views(v@)[k].link != l@,
        decreases v@.len() - i,
    {
        if str_eq(v[i].link.as_str(), l.as_str()) {
            assert(list_views(v@)[i as int].link == l@);
            return true;
        }
        i = i + 1;
    }
    assert(forall|k: int| 0 <= k < v@.len() ==> list_views(v@)[k].link != l@);
    false
}

proof fn lemma_first_with_link_at(s: Seq<ListV>, l: Seq<char>, i: int)
    requires
        0 <= i < s.len(),
        s[i].link == l,
        forall|k: int| 0 <= k < i ==> s[k].link != l,
    ensures
        first_with_link(s, l) == s[i],
    decreases i,
{
    if i == 0 {
    } else {
        lemma_first_with_link_at(s.drop_first(), l, i - 1);
    }
}

/// A clone of the first entry of `v` whose link is `l`.
fn first_in(v: &Vec<List>, l: &String) -> (r: List)
    requires
        has_link(list_views(v@), l@),
    ensures
        r@ == first_with_link(list_views(v@), l@),
{
    let mut i: usize = 0;
    while i < v.len()
        invariant
            i <= v@.len(),
            has_link(list_views(v@), l@),
            forall|k: int| 0 <= k < i ==> list_views(v@)[k].link != l@,
        decreases v@.len() - i,
    {
        if str_eq(v[i].link.as_str(), l.as_str()) {
            proof {
                lemma_first_with_link_at(list_views(v@), l@, i as int);
            }
            return v[i].clone();
        }
        i = i + 1;
    }
    proof {
        assert(forall|k: int| 0 <= k < v@.len() ==> list_views(v@)[k].link != l@);
        assert(false);
    }
    v[0].clone()
}

proof fn lemma_dedup_has_link(s: Seq<ListV>, l: Seq<char>)
    ensures
        has_link(dedup_by_link(s), l) == has_link(s, l),
    decreases s.len(),
{
    if s.len() == 0 {
        assert(!has_link(s, l));
        assert(!has_link(dedup_by_link(s), l));
    } else {
        let rest = s.drop_last();
        lemma_dedup_has_link(rest, l);
        assert(has_link(s, l) == (has_link(rest, l) || s.last().link == l)) by {
            if has_link(s, l) {
                let i = choose|i: int| 0 <= i < s.len() && s[i].link == l;
                if i < s.len() - 1 {
                    assert(rest[i].link == l);
                    assert(has_link(rest, l));
                }
            }
            if has_link(rest, l) {
                let i = choose|i: int| 0 <= i < rest.len() && rest[i].link == l;
                assert(s[i].link == l);
            }
            assert(s.last() == s[s.len() - 1]);
        }
        if !has_link(rest, s.last().link) {
            let d = dedup_by_link(rest);
            assert(dedup_by_link(s) == d.push(s.last()));
            assert(has_link(d.push(s.last()), l) == (has_link(d, l) || s.last().link == l)) by {
                if has_link(d.push(s.last()), l) {
                    let i = choose|i: int|
                        0 <= i < d.push(s.last()).len() && d.push(s.last())[i].link == l;
                    if i < d.len() {
                        assert(d[i].link == l);
                    }
                }
                if has_link(d, l) {
                    let i = choose|i: int| 0 <= i < d.len() && d[i].link == l;
                    assert(d.push(s.last())[i].link == l);
                }
                assert(d.push(s.last())[d.len() as int] == s.last());
            }
        }
    }
}

/// The entries of `fresh` (by reference) whose link does not occur in
/// `stored`, first occurrence only.
fn new_entries(fresh: &Vec<List>, stored: &Vec<List>) -> (r: Vec<List>)
    ensures
        list_views(r@) == newly_discovered(list_views(fresh@), list_views(stored@)),
{
    let mut out: Vec<List> = Vec::new();
    let mut i: usize = 0;
    proof {
        reveal(Seq::filter);
        assert(list_views(fresh@).subrange(0, 0) =~= Seq::<ListV>::empty());
        assert(list_views(out@) =~= Seq::<ListV>::empty());
    }
    while i < fresh.len()
        invariant
            i <= fresh@.len(),
            list_views(out@) == dedup_by_link(list_views(fresh@).subrange(0, i as int)).filter(
                |e: ListV| !has_link(list_views(stored@), e.link),
            ),
        decreases fresh@.len() - i,
    {
        let ghost fv = list_views(fresh@);
        let ghost pre = fv.subrange(0, i as int);
        let ghost pre1 = fv.subrange(0, i + 1);
        proof {
            reveal(Seq::filter);
            assert(pre1.drop_last() =~= pre);
            assert(pre1.last() == fv[i as int]);
        }
        let e = &fresh[i];
        let in_out = link_in(&out, &e.link);
        let in_stored = link_in(stored, &e.link);
        proof {
            lemma_dedup_has_link(pre, e@.link);
            let d = dedup_by_link(pre);
            let f = d.filter(|x: ListV| !has_link(list_views(stored@), x.link));
            // membership in the filtered dedup equals membership in the dedup,
            // unless the stored links excluded it
            assert(has_link(f, e@.link) == (has_link(d, e@.link) && !has_link(
                list_views(stored@),
                e@.link,
            ))) by {
                lemma_filter_has_link(d, list_views(stored@), e@.link);
            }
        }
        if !in_out && !in_stored {
            out.push(fresh[i].clone());
            proof {
                reveal(Seq::filter);
                let d = dedup_by_link(pre);
                assert(dedup_by_link(pre1) == d.push(fv[i as int]));
                assert(d.push(fv[i as int]).drop_last() =~= d);
                assert(list_views(out@) =~= d.filter(
                    |x: ListV| !has_link(list_views(stored@), x.link),
                ).push(fv[i as int]));
            }
        } else {
            proof {
                reveal(Seq::filter);
                let d = dedup_by_link(pre);
                if !has_link(pre, e@.link) {
                    assert(dedup_by_link(pre1) == d.push(fv[i as int]));
                    assert(d.push(fv[i as int]).drop_last() =~= d);
                    assert(has_link(list_views(stored@), e@.link));
                } else {
                    assert(dedup_by_link(pre1) == d);
                }
            }
        }
        i = i + 1;
    }
    proof {
        assert(list_views(fresh@).subrange(0, fresh@.len() as int) =~= list_views(fresh@));
    }
    out
}

proof fn lemma_filter_has_link(d: Seq<ListV>, stored: Seq<ListV>, l: Seq<char>)
    ensures
        has_link(d.filter(|x: ListV| !has_link(stored, x.link)), l) == (has_link(d, l)
            && !has_link(stored, l)),
    decreases d.len(),
{
    reveal(Seq::filter);
    let pred = |x: ListV| !has_link(stored, x.link);
    if d.len() == 0 {
        assert(!has_link(d, l));
        assert(!has_link(d.filter(pred), l));
    } else {
        let rest = d.drop_last();
        lemma_filter_has_link(rest, stored, l);
        assert(has_link(d, l) == (has_link(rest, l) || d.last().link == l)) by {
            lemma_has_link_push(rest, d.last(), l);
            assert(rest.push(d.last()) =~= d);
        }
        if pred(d.last()) {
            assert(d.filter(pred) == rest.filter(pred).push(d.last()));
            lemma_has_link_push(rest.filter(pred), d.last(), l);
        } else {
            assert(d.filter(pred) == rest.filter(pred));
        }
    }
}

pub(crate) proof fn lemma_has_link_push(s: Seq<ListV>, e: ListV, l: Seq<char>)
    ensures
        has_link(s.push(e), l) == (has_link(s, l) || e.link == l),
{
    if has_link(s.push(e), l) {
        let i = choose|i: int| 0 <= i < s.push(e).len() && s.push(e)[i].link == l;
        if i < s.len() {
            assert(s[i].link == l);
        }
    }
    if has_link(s, l) {
        let i = choose|i: int| 0 <= i < s.len() && s[i].link == l;
        assert(s.push(e)[i].link == l);
    }
    assert(s.push(e)[s.len() as int] == e);
}

/// The entries of `a` (fresh) whose link does not occur in `b` (stored),
/// in order of first occurrence: the newly discovered entries of this cycle.
pub fn newer_to_list(a: Vec<List>, b: Vec<List>) -> (r: Vec<List>)
    ensures
        list_views(r@) == newly_discovered(list_views(a@), list_views(b@)),
{
    new_entries(&a, &b)
}

/// The stored entries with freshness priority applied: a stored entry whose
/// link occurs in `fresh` becomes the first fresh copy of that link.
fn refreshed(fresh: &Vec<List>, stored: &Vec<List>) -> (r: Vec<List>)
    ensures
        list_views(r@) == refreshed_stored(list_views(fresh@), list_views(stored@)),
{
    let mut out: Vec<List> = Vec::new();
    let mut j: usize = 0;
    while j < stored.len()
        invariant
            j <= stored@.len(),
            out@.len() == j,
            forall|k: int| 0 <= k < j ==> list_views(out@)[k] == refresh_entry(
                list_views(fresh@),
                list_views(stored@)[k],
            ),
        decreases stored@.len() - j,
    {
        let ghost before = list_views(out@);
        let e = &stored[j];
        if link_in(fresh, &e.link) {
            let f = first_in(fresh, &e.link);
            out.push(f);
        } else {
            let c = stored[j].clone();
            out.push(c);
        }
        proof {
            assert(list_views(out@) =~= before.push(out@[j as int]@));
            assert(e@ == list_views(stored@)[j as int]);
            assert(list_views(out@)[j as int] == refresh_entry(
                list_views(fresh@),
                list_views(stored@)[j as int],
            ));
        }
        j = j + 1;
    }
    assert(list_views(out@) =~= refreshed_stored(list_views(fresh@), list_views(stored@)));
    out
}

proof fn lemma_insert_desc_at(s: Seq<ListV>, e: ListV, j: int)
    requires
        0 <= j <= s.len(),
        forall|k: int| 0 <= k < j ==> s[k].timestamp >= e.timestamp,
        j == s.len() || s[j].timestamp < e.timestamp,
    ensures
        insert_desc(s, e) == s.insert(j, e),
    decreases j,
{
    if j == 0 {
        if s.len() == 0 {
            assert(insert_desc(s, e) =~= s.insert(0, e));
        } else {
            assert(insert_desc(s, e) == seq![e] + s);
            assert(seq![e] + s =~= s.insert(0, e));
        }
    } else {
        assert(s[0].timestamp >= e.timestamp);
        lemma_insert_desc_at(s.drop_first(), e, j - 1);
        assert(seq![s[0]] + s.drop_first().insert(j - 1, e) =~= s.insert(j, e));
    }
}

/// The merged state of one cycle: `a` is the fresh scrape, `b` the stored
/// state. Entries are deduplicated by link with the fresh copy winning, and
/// the result is sorted by timestamp descending (stable).
pub fn merge_to_list(a: Vec<List>, b: Vec<List>) -> (r: Vec<List>)
    ensures
        list_views(r@) == merged_state(list_views(a@), list_views(b@)),
{
    let mut pre = new_entries(&a, &b);
    let mut keep = refreshed(&a, &b);
    let ghost pre0 = list_views(pre@);
    let mut j: usize = 0;
    while j < keep.len()
        invariant
            j <= keep@.len(),
            list_views(pre@) == pre0 + list_views(keep@).subrange(0, j as int),
        decreases keep@.len() - j,
    {
        let ghost before = list_views(pre@);
        let c = keep[j].clone();
        pre.push(c);
        proof {
            assert(list_views(pre@) =~= before.push(list_views(keep@)[j as int]));
            assert(list_views(pre@) =~= pre0 + list_views(keep@).subrange(0, j + 1));
        }
        j = j + 1;
    }
    assert(list_views(keep@).subrange(0, keep@.len() as int) =~= list_views(keep@));
    let ghost target = list_views(pre@);
    // stable insertion sort by timestamp, descending
    let mut out: Vec<List> = Vec::new();
    let mut i: usize = 0;
    proof {
        assert(target.subrange(0, 0) =~= Seq::<ListV>::empty());
    }
    while i < pre.len()
        invariant
            i <= pre@.len(),
            target == list_views(pre@),
            list_views(out@) == sort_desc(target.subrange(0, i as int)),
        decreases pre@.len() - i,
    {
        let item = pre[i].clone();
        let ts = item.timestamp;
        let ghost old_out = list_views(out@);
        let mut k: usize = 0;
        while k < out.len() && out[k].timestamp >= ts
            invariant
                k <= out@.len(),
                list_views(out@) == old_out,
                item.timestamp == ts,
                forall|q: int| 0 <= q < k ==> list_views(out@)[q].timestamp >= ts,
            decreases out@.len() - k,
        {
            k = k + 1;
        }
        out.insert(k, item);
        proof {
            lemma_insert_desc_at(old_out, target[i as int], k as int);
            assert(list_views(out@) =~= old_out.insert(k as int, target[i as int]));
            assert(target.subrange(0, i + 1).drop_last() =~= target.subrange(0, i as int));
            assert(target.subrange(0, i + 1).last() == target[i as int]);
        }
        i = i + 1;
    }
    assert(target.subrange(0, pre@.len() as int) =~= target);
    out
}

proof fn lemma_has_link_concat(a: Seq<ListV>, b: Seq<ListV>, l: Seq<char>)
    ensures
        has_link(a + b, l) == (has_link(a, l) || has_link(b, l)),
{
    if has_link(a + b, l) {
        let i = choose|i: int| 0 <= i < (a + b).len() && (a + b)[i].link == l;
        if i < a.len() {
            assert(a[i].link == l);
        } else {
            assert(b[i - a.len()].link == l);
        }
    }
    if has_link(a, l) {
        let i = choose|i: int| 0 <= i < a.len() && a[i].link == l;
        assert((a + b)[i].link == l);
    }
    if has_link(b, l) {
        let i = choose|i: int| 0 <= i < b.len() && b[i].link == l;
        assert((a + b)[a.len() + i].link == l);
    }
}

pub(crate) proof fn lemma_contains_concat(a: Seq<ListV>, b: Seq<ListV>, x: ListV)
    ensures
        (a + b).contains(x) == (a.contains(x) || b.contains(x)),
{
    if (a + b).contains(x) {
        let i = choose|i: int| 0 <= i < (a + b).len() && (a + b)[i] == x;
        if i < a.len() {
            assert(a[i] == x);
        } else {
            assert(b[i - a.len()] == x);
        }
    }
    if a.contains(x) {
        let i = choose|i: int| 0 <= i < a.len() && a[i] == x;
        assert((a + b)[i] == x);
    }
    if b.contains(x) {
        let i = choose|i: int| 0 <= i < b.len() && b[i] == x;
        assert((a + b)[a.len() + i] == x);
    }
}

pub(crate) proof fn lemma_unique_push(s: Seq<ListV>, e: ListV)
    requires
        unique_links(s),
        !has_link(s, e.link),
    ensures
        unique_links(s.push(e)),
{
    let r = s.push(e);
    assert forall|i: int, j: int| 0 <= i < j < r.len() implies r[i].link != r[j].link by {
        if j < s.len() {
            assert(r[i] == s[i] && r[j] == s[j]);
        } else {
            assert(r[j] == e);
            assert(r[i] == s[i]);
            if s[i].link == e.link {
                assert(has_link(s, e.link));
            }
        }
    }
}

proof fn lemma_first_with_link_found(s: Seq<ListV>, l: Seq<char>)
    requires
        has_link(s, l),
    ensures
        first_with_link(s, l).link == l,
        s.contains(first_with_link(s, l)),
    decreases s.len(),
{
    if s[0].link == l {
        assert(s.contains(s[0]));
    } else {
        let i = choose|i: int| 0 <= i < s.len() && s[i].link == l;
        assert(i > 0);
        assert(s.drop_first()[i - 1].link == l);
        assert(has_link(s.drop_first(), l));
        lemma_first_with_link_found(s.drop_first(), l);
        let fw = first_with_link(s.drop_first(), l);
        let k = choose|k: int| 0 <= k < s.drop_first().len() && s.drop_first()[k] == fw;
        assert(s[k + 1] == fw);
    }
}

proof fn lemma_dedup_unique(s: Seq<ListV>)
    ensures
        unique_links(dedup_by_link(s)),
    decreases s.len(),
{
    if s.len() == 0 {
    } else {
        let rest = s.drop_last();
        lemma_dedup_unique(rest);
        if !has_link(rest, s.last().link) {
            lemma_dedup_has_link(rest, s.last().link);
            lemma_unique_push(dedup_by_link(rest), s.last());
        }
    }
}

proof fn lemma_filter_unique(d: Seq<ListV>, stored: Seq<ListV>)
    requires
        unique_links(d),
    ensures
        unique_links(d.filter(|x: ListV| !has_link(stored, x.link))),
    decreases d.len(),
{
    reveal(Seq::filter);
    let pred = |x: ListV| !has_link(stored, x.link);
    if d.len() == 0 {
    } else {
        let rest = d.drop_last();
        assert(unique_links(rest)) by {
            assert(forall|i: int, j: int|
                0 <= i < j < rest.len() ==> rest[i] == d[i] && rest[j] == d[j]);
        }
        lemma_filter_unique(rest, stored);
        if pred(d.last()) {
            assert(d.filter(pred) == rest.filter(pred).push(d.last()));
            assert(!has_link(rest, d.last().link)) by {
                if has_link(rest, d.last().link) {
                    let i = choose|i: int| 0 <= i < rest.len() && rest[i].link == d.last().link;
                    assert(d[i].link == d[d.len() - 1].link);
                }
            }
            lemma_filter_has_link(rest, stored, d.last().link);
            lemma_unique_push(rest.filter(pred), d.last());
        } else {
            assert(d.filter(pred) == rest.filter(pred));
        }
    }
}

proof fn lemma_insert_desc_props(s: Seq<ListV>, e: ListV)
    ensures
        insert_desc(s, e).len() == s.len() + 1,
        forall|l: Seq<char>| #[trigger] has_link(insert_desc(s, e), l) == (has_link(s, l)
            || e.link == l),
        forall|x: ListV| #[trigger] insert_desc(s, e).contains(x) == (s.contains(x) || x == e),
        unique_links(s) && !has_link(s, e.link) ==> unique_links(insert_desc(s, e)),
        sorted_desc(s) ==> sorted_desc(insert_desc(s, e)),
    decreases s.len(),
{
    let r = insert_desc(s, e);
    if s.len() == 0 {
        assert(r == seq![e]);
        assert forall|l: Seq<char>| #[trigger] has_link(r, l) == (has_link(s, l) || e.link
            == l) by {
            if has_link(r, l) {
                let i = choose|i: int| 0 <= i < r.len() && r[i].link == l;
                assert(r[i] == e);
            }
            if e.link == l {
                assert(r[0].link == l);
            }
        }
        assert forall|x: ListV| #[trigger] r.contains(x) == (s.contains(x) || x == e) by {
            if r.contains(x) {
                let i = choose|i: int| 0 <= i < r.len() && r[i] == x;
                assert(r[i] == e);
            }
            assert(r[0] == e);
        }
    } else if s[0].timestamp >= e.timestamp {
        let rest = s.drop_first();
        let t = insert_desc(rest, e);
        lemma_insert_desc_props(rest, e);
        assert(r == seq![s[0]] + t);
        assert(s =~= seq![s[0]] + rest);
        assert forall|l: Seq<char>| #[trigger] has_link(r, l) == (has_link(s, l) || e.link
            == l) by {
            lemma_has_link_concat(seq![s[0]], t, l);
            lemma_has_link_concat(seq![s[0]], rest, l);
            assert(has_link(seq![s[0]], l) == (s[0].link == l)) by {
                if has_link(seq![s[0]], l) {
                    let i = choose|i: int| 0 <= i < 1 && seq![s[0]][i].link == l;
                    assert(seq![s[0]][i] == s[0]);
                }
                if s[0].link == l {
                    assert(seq![s[0]][0].link == l);
                }
            }
        }
        assert forall|x: ListV| #[trigger] r.contains(x) == (s.contains(x) || x == e) by {
            lemma_contains_concat(seq![s[0]], t, x);
            lemma_contains_concat(seq![s[0]], rest, x);
            assert(seq![s[0]].contains(x) == (s[0] == x)) by {
                if seq![s[0]].contains(x) {
                    let i = choose|i: int| 0 <= i < 1 && seq![s[0]][i] == x;
                    assert(seq![s[0]][i] == s[0]);
                }
                if s[0] == x {
                    assert(seq![s[0]][0] == x);
                }
            }
        }
        if unique_links(s) && !has_link(s, e.link) {
            assert(unique_links(rest)) by {
                assert(forall|i: int, j: int|
                    0 <= i < j < rest.len() ==> rest[i] == s[i + 1] && rest[j] == s[j + 1]);
            }
            assert(!has_link(rest, e.link)) by {
                if has_link(rest, e.link) {
                    let i = choose|i: int| 0 <= i < rest.len() && rest[i].link == e.link;
                    assert(s[i + 1].link == e.link);
                }
            }
            assert(unique_links(t));
            assert(!has_link(t, s[0].link)) by {
                assert(e.link != s[0].link) by {
                    if e.link == s[0].link {
                        assert(has_link(s, e.link));
                    }
                }
                assert(!has_link(rest, s[0].link)) by {
                    if has_link(rest, s[0].link) {
                        let i = choose|i: int| 0 <= i < rest.len() && rest[i].link == s[0].link;
                        assert(s[i + 1].link == s[0].link);
                    }
                }
            }
            assert forall|i: int, j: int| 0 <= i < j < r.len() implies r[i].link != r[j].link by {
                if i == 0 {
                    assert(r[j] == t[j - 1]);
                    if t[j - 1].link == s[0].link {
                        assert(has_link(t, s[0].link));
                    }
                } else {
                    assert(r[i] == t[i - 1] && r[j] == t[j - 1]);
                }
            }
        }
        if sorted_desc(s) {
            assert(sorted_desc(rest)) by {
                assert(forall|i: int, j: int|
                    0 <= i < j < rest.len() ==> rest[i] == s[i + 1] && rest[j] == s[j + 1]);
            }
            assert(sorted_desc(t));
            assert forall|i: int, j: int| 0 <= i < j < r.len() implies r[i].timestamp
                >= r[j].timestamp by {
                if i == 0 {
                    assert(r[j] == t[j - 1]);
                    assert(t.contains(t[j - 1]));
                    let x = t[j - 1];
                    assert(rest.contains(x) || x == e);
                    if rest.contains(x) {
                        let k = choose|k: int| 0 <= k < rest.len() && rest[k] == x;
                        assert(s[k + 1] == x);
                        assert(s[0].timestamp >= s[k + 1].timestamp);
                    }
                } else {
                    assert(r[i] == t[i - 1] && r[j] == t[j - 1]);
                }
            }
        }
    } else {
        assert(r == seq![e] + s);
        assert forall|l: Seq<char>| #[trigger] has_link(r, l) == (has_link(s, l) || e.link
            == l) by {
            lemma_has_link_concat(seq![e], s, l);
            assert(has_link(seq![e], l) == (e.link == l)) by {
                if has_link(seq![e], l) {
                    let i = choose|i: int| 0 <= i < 1 && seq![e][i].link == l;
                    assert(seq![e][i] == e);
                }
                if e.link == l {
                    assert(seq![e][0].link == l);
                }
            }
        }
        assert forall|x: ListV| #[trigger] r.contains(x) == (s.contains(x) || x == e) by {
            lemma_contains_concat(seq![e], s, x);
            assert(seq![e].contains(x) == (e == x)) by {
                if seq![e].contains(x) {
                    let i = choose|i: int| 0 <= i < 1 && seq![e][i] == x;
                    assert(seq![e][i] == e);
                }
                if e == x {
                    assert(seq![e][0] == x);
                }
            }
        }
        if unique_links(s) && !has_link(s, e.link) {
            assert forall|i: int, j: int| 0 <= i < j < r.len() implies r[i].link != r[j].link by {
                if i == 0 {
                    assert(r[j] == s[j - 1]);
                    if s[j - 1].link == e.link {
                        assert(has_link(s, e.link));
                    }
                } else {
                    assert(r[i] == s[i - 1] && r[j] == s[j - 1]);
                }
            }
        }
        if sorted_desc(s) {
            assert forall|i: int, j: int| 0 <= i < j < r.len() implies r[i].timestamp
                >= r[j].timestamp by {
                if i == 0 {
                    assert(r[j] == s[j - 1]);
                    if j - 1 > 0 {
                        assert(s[0].timestamp >= s[j - 1].timestamp);
                    }
                } else {
                    assert(r[i] == s[i - 1] && r[j] == s[j - 1]);
                }
            }
        }
    }
}

proof fn lemma_sort_desc_props(s: Seq<ListV>)
    ensures
        sort_desc(s).len() == s.len(),
        forall|l: Seq<char>| #[trigger] has_link(sort_desc(s), l) == has_link(s, l),
        forall|x: ListV| #[trigger] sort_desc(s).contains(x) == s.contains(x),
        unique_links(s) ==> unique_links(sort_desc(s)),
        sorted_desc(sort_desc(s)),
    decreases s.len(),
{
    if s.len() == 0 {
        assert forall|l: Seq<char>| #[trigger] has_link(sort_desc(s), l) == has_link(s, l) by {
            assert(!has_link(s, l) && !has_link(sort_desc(s), l));
        }
    } else {
        let rest = s.drop_last();
        let t = sort_desc(rest);
        lemma_sort_desc_props(rest);
        lemma_insert_desc_props(t, s.last());
        assert(s =~= rest.push(s.last()));
        assert forall|l: Seq<char>| #[trigger] has_link(sort_desc(s), l) == has_link(s, l) by {
            lemma_has_link_push(rest, s.last(), l);
        }
        assert forall|x: ListV| #[trigger] sort_desc(s).contains(x) == s.contains(x) by {
            assert(rest.push(s.last()).contains(x) == (rest.contains(x) || s.last() == x)) by {
                lemma_contains_concat(rest, seq![s.last()], x);
                assert(rest + seq![s.last()] =~= rest.push(s.last()));
                if seq![s.last()].contains(x) {
                    let i = choose|i: int| 0 <= i < 1 && seq![s.last()][i] == x;
                    assert(seq![s.last()][i] == s.last());
                }
                if s.last() == x {
                    assert(seq![s.last()][0] == x);
                }
            }
        }
        if unique_links(s) {
            assert(unique_links(rest)) by {
                assert(forall|i: int, j: int|
                    0 <= i < j < rest.len() ==> rest[i] == s[i] && rest[j] == s[j]);
            }
            assert(!has_link(rest, s.last().link)) by {
                if has_link(rest, s.last().link) {
                    let i = choose|i: int| 0 <= i < rest.len() && rest[i].link == s.last().link;
                    assert(s[i].link == s[s.len() - 1].link);
                }
            }
        }
    }
}

/// Identity uniqueness: when the stored state holds no two entries with the
/// same link, neither does either merge output — not the merged state, and
/// not the newly discovered list.
pub proof fn lemma_merge_identity_uniqueness(fresh: Seq<ListV>, stored: Seq<ListV>)
    requires
        unique_links(stored),
    ensures
        unique_links(merged_state(fresh, stored)),
        unique_links(newly_discovered(fresh, stored)),
{
    let nd = newly_discovered(fresh, stored);
    let rf = refreshed_stored(fresh, stored);
    lemma_dedup_unique(fresh);
    lemma_filter_unique(dedup_by_link(fresh), stored);
    assert(unique_links(nd));
    assert forall|k: int| 0 <= k < rf.len() implies rf[k].link == stored[k].link by {
        if has_link(fresh, stored[k].link) {
            lemma_first_with_link_found(fresh, stored[k].link);
        }
    }
    assert(unique_links(rf));
    assert forall|i: int, j: int| 0 <= i < j < (nd + rf).len() implies (nd + rf)[i].link != (nd
        + rf)[j].link by {
        if j < nd.len() {
            assert((nd + rf)[i] == nd[i] && (nd + rf)[j] == nd[j]);
        } else if i >= nd.len() {
            assert((nd + rf)[i] == rf[i - nd.len()] && (nd + rf)[j] == rf[j - nd.len()]);
        } else {
            assert((nd + rf)[i] == nd[i] && (nd + rf)[j] == rf[j - nd.len()]);
            dedup_by_link(fresh).lemma_filter_pred(
                |x: ListV| !has_link(stored, x.link),
                i,
            );
            assert(!has_link(stored, nd[i].link));
            if nd[i].link == rf[j - nd.len()].link {
                assert(stored[j - nd.len()].link == nd[i].link);
                assert(has_link(stored, nd[i].link));
            }
        }
    }
    lemma_sort_desc_props(nd + rf);
}

/// Output ordering: the merged state is ordered by `timestamp`, most recent
/// first.
pub proof fn lemma_merged_state_sorted(fresh: Seq<ListV>, stored: Seq<ListV>)
    ensures
        sorted_desc(merged_state(fresh, stored)),
{
    lemma_sort_desc_props(
        newly_discovered(fresh, stored) + refreshed_stored(fresh, stored),
    );
}

/// Freshness priority: a stored entry whose link reappears in the fresh
/// scrape is represented in the merged state by its first fresh copy — in
/// particular its timestamp is the fresh one, and no entry with that link
/// carries the stored timestamp.
pub proof fn lemma_merge_freshness_priority(fresh: Seq<ListV>, stored: Seq<ListV>, l: Seq<char>)
    requires
        unique_links(stored),
        has_link(stored, l),
        has_link(fresh, l),
    ensures
        merged_state(fresh, stored).contains(first_with_link(fresh, l)),
        forall|k: int|
            0 <= k < merged_state(fresh, stored).len() && #[trigger] merged_state(
                fresh,
                stored,
            )[k].link == l ==> merged_state(fresh, stored)[k] == first_with_link(fresh, l),
{
    let nd = newly_discovered(fresh, stored);
    let rf = refreshed_stored(fresh, stored);
    let m = merged_state(fresh, stored);
    lemma_sort_desc_props(nd + rf);
    lemma_first_with_link_found(fresh, l);
    // the re-observed entry is carried into the refreshed stored state
    let i = choose|i: int| 0 <= i < stored.len() && stored[i].link == l;
    assert(rf[i] == first_with_link(fresh, l));
    assert((nd + rf)[nd.len() + i] == rf[i]);
    assert((nd + rf).contains(first_with_link(fresh, l)));
    assert(m.contains(first_with_link(fresh, l)));
    // and every merged entry with that link is that fresh copy
    assert forall|k: int|
        0 <= k < m.len() && #[trigger] m[k].link == l implies m[k] == first_with_link(
        fresh,
        l,
    ) by {
        assert(m.contains(m[k]));
        assert((nd + rf).contains(m[k]));
        let p = choose|p: int| 0 <= p < (nd + rf).len() && (nd + rf)[p] == m[k];
        if p < nd.len() {
            assert(nd[p] == m[k]);
            dedup_by_link(fresh).lemma_filter_pred(|x: ListV| !has_link(stored, x.link), p);
            assert(!has_link(stored, m[k].link));
        } else {
            assert(rf[p - nd.len()] == m[k]);
            let q = p - nd.len();
            if has_link(fresh, stored[q].link) {
                lemma_first_with_link_found(fresh, stored[q].link);
                assert(rf[q] == first_with_link(fresh, stored[q].link));
                assert(rf[q].link == stored[q].link);
                assert(stored[q].link == l);
            } else {
                assert(rf[q] == stored[q]);
                assert(stored[q].link == l);
                assert(has_link(fresh, l));
            }
        }
    }
}

/// Newly-discovered exclusivity: no newly discovered entry carries a link
/// that is already present in the stored state.
pub proof fn lemma_newly_discovered_exclusive(fresh: Seq<ListV>, stored: Seq<ListV>)
    ensures
        forall|k: int|
            0 <= k < newly_discovered(fresh, stored).len() ==> !has_link(
                stored,
                #[trigger] newly_discovered(fresh, stored)[k].link,
            ),
{
    let nd = newly_discovered(fresh, stored);
    assert forall|k: int| 0 <= k < nd.len() implies !has_link(stored, nd[k].link) by {
        dedup_by_link(fresh).lemma_filter_pred(|x: ListV| !has_link(stored, x.link), k);
    }
}

/// One-shot discovery: running discovery again with the same fresh scrape
/// against the merged state finds nothing. An entry seen once is in the
/// state from then on, so it can never re-trigger the download cascade.
pub proof fn lemma_no_rediscovery(fresh: Seq<ListV>, stored: Seq<ListV>)
    ensures
        newly_discovered(fresh, merged_state(fresh, stored)).len() == 0,
{
    let nd = newly_discovered(fresh, stored);
    let rf = refreshed_stored(fresh, stored);
    let m = merged_state(fresh, stored);
    let d = dedup_by_link(fresh);
    lemma_sort_desc_props(nd + rf);
    // every link of the fresh scrape occurs in the merged state
    assert forall|l: Seq<char>| has_link(fresh, l) implies #[trigger] has_link(m, l) by {
        lemma_has_link_concat(nd, rf, l);
        if has_link(stored, l) {
            let i = choose|i: int| 0 <= i < stored.len() && stored[i].link == l;
            assert(rf[i].link == l) by {
                if has_link(fresh, stored[i].link) {
                    lemma_first_with_link_found(fresh, stored[i].link);
                }
            }
            assert(has_link(rf, l));
        } else {
            lemma_dedup_has_link(fresh, l);
            lemma_filter_has_link(d, stored, l);
            assert(has_link(nd, l));
        }
    }
    // so discovery against the merged state excludes every deduplicated entry
    let pred = |e: ListV| !has_link(m, e.link);
    assert forall|i: int| 0 <= i < d.len() implies !(#[trigger] pred(d[i])) by {
        assert(has_link(d, d[i].link));
        lemma_dedup_has_link(fresh, d[i].link);
        assert(has_link(fresh, d[i].link));
    }
    assert(d.all(|e: ListV| !pred(e)));
    d.lemma_all_neg_filter_empty(pred);
}

/// Merge determinism: two runs of the merge on identical inputs produce the
/// same merged state and the same newly discovered list.
pub proof fn lemma_merge_deterministic(
    fresh1: Seq<ListV>,
    stored1: Seq<ListV>,
    fresh2: Seq<ListV>,
    stored2: Seq<ListV>,
)
    requires
        fresh1 == fresh2,
        stored1 == stored2,
    ensures
        merged_state(fresh1, stored1) == merged_state(fresh2, stored2),
        newly_discovered(fresh1, stored1) == newly_discovered(fresh2, stored2),
{
}

} // verus!
