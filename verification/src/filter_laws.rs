use vstd::prelude::*;

use crate::catalog::{
    first_by_name, lemma_text_lt_order, parsed_entries, sort_key, stable_sorted_by_key, text_lt,
};
use crate::desktop::{desktop_entry, hidden_by_any, AppEntryView};
use crate::laws::{lemma_distinct_indices_cover, lemma_first_by_name_distinct};

verus! {

/// `e` is hidden by none of `more`.
pub open spec fn shown_by(more: Seq<Seq<char>>, e: AppEntryView) -> bool {
    !hidden_by_any(more, e.name)
}

/// The entries of `s` that none of `more` hides, in order.
pub open spec fn keep_shown(s: Seq<AppEntryView>, more: Seq<Seq<char>>) -> Seq<AppEntryView>
    decreases s.len(),
{
    if s.len() == 0 {
        s
    } else if shown_by(more, s.last()) {
        keep_shown(s.drop_last(), more).push(s.last())
    } else {
        keep_shown(s.drop_last(), more)
    }
}

/// Where in `s` the entries of `keep_shown(s, more)` stand.
spec fn kept_positions(s: Seq<AppEntryView>, more: Seq<Seq<char>>) -> Seq<int>
    decreases s.len(),
{
    if s.len() == 0 {
        Seq::empty()
    } else if shown_by(more, s.last()) {
        kept_positions(s.drop_last(), more).push(s.len() - 1)
    } else {
        kept_positions(s.drop_last(), more)
    }
}

proof fn lemma_kept_positions(s: Seq<AppEntryView>, more: Seq<Seq<char>>)
    ensures
        kept_positions(s, more).len() == keep_shown(s, more).len(),
        forall|i: int|
            0 <= i < kept_positions(s, more).len() ==> 0 <= #[trigger] kept_positions(s, more)[i]
                < s.len() && keep_shown(s, more)[i] == s[kept_positions(s, more)[i]]
                && shown_by(more, keep_shown(s, more)[i]),
        forall|i: int, j: int|
            0 <= i < j < kept_positions(s, more).len() ==> kept_positions(s, more)[i]
                < kept_positions(s, more)[j],
        forall|r: int|
            0 <= r < s.len() && shown_by(more, #[trigger] s[r]) ==> exists|i: int|
                0 <= i < kept_positions(s, more).len() && kept_positions(s, more)[i] == r,
    decreases s.len(),
{
    if s.len() > 0 {
        let t = s.drop_last();
        lemma_kept_positions(t, more);
        let kp = kept_positions(s, more);
        let ks = keep_shown(s, more);
        let tp = kept_positions(t, more);
        assert forall|i: int| 0 <= i < kp.len() implies 0 <= #[trigger] kp[i] < s.len() && ks[i]
            == s[kp[i]] && shown_by(more, ks[i]) by {
            if i < tp.len() {
                assert(kp[i] == tp[i]);
                assert(ks[i] == keep_shown(t, more)[i]);
                assert(t[tp[i]] == s[tp[i]]);
            }
        }
        assert forall|r: int| 0 <= r < s.len() && shown_by(more, #[trigger] s[r]) implies exists|i: int|
            0 <= i < kp.len() && kp[i] == r by {
            if r < s.len() - 1 {
                assert(t[r] == s[r]);
                let i = choose|i: int| 0 <= i < tp.len() && tp[i] == r;
                assert(kp[i] == tp[i]);
            } else {
                assert(kp[kp.len() - 1] == r);
            }
        }
    }
}

proof fn lemma_hidden_by_concat(ps: Seq<Seq<char>>, more: Seq<Seq<char>>, name: Seq<char>)
    ensures
        hidden_by_any(ps + more, name) == (hidden_by_any(ps, name) || hidden_by_any(more, name)),
{
    let all = ps + more;
    if hidden_by_any(all, name) {
        let i = choose|i: int| 0 <= i < all.len() && crate::glob::hides(#[trigger] all[i], name);
        if i < ps.len() {
            assert(all[i] == ps[i]);
        } else {
            assert(all[i] == more[i - ps.len()]);
        }
    }
    if hidden_by_any(ps, name) {
        let i = choose|i: int| 0 <= i < ps.len() && crate::glob::hides(#[trigger] ps[i], name);
        assert(all[i] == ps[i]);
    }
    if hidden_by_any(more, name) {
        let i = choose|i: int| 0 <= i < more.len() && crate::glob::hides(#[trigger] more[i], name);
        assert(all[ps.len() + i] == more[i]);
    }
}

proof fn lemma_parsed_more(contents: Seq<Seq<char>>, ps: Seq<Seq<char>>, more: Seq<Seq<char>>)
    ensures
        parsed_entries(contents, ps + more) == keep_shown(parsed_entries(contents, ps), more),
    decreases contents.len(),
{
    if contents.len() > 0 {
        lemma_parsed_more(contents.drop_last(), ps, more);
        let f = crate::desktop::scan_lines(crate::desktop::lines(contents.last()));
        lemma_hidden_by_concat(ps, more, f.name);
        let prev = parsed_entries(contents.drop_last(), ps);
        match desktop_entry(contents.last(), ps) {
            Some(e) => {
                assert(parsed_entries(contents, ps) == prev.push(e));
                assert(prev.push(e).drop_last() =~= prev);
            },
            None => {},
        }
    }
}

proof fn lemma_names_kept(c: Seq<AppEntryView>, more: Seq<Seq<char>>, n: Seq<char>)
    ensures
        (exists|j: int| 0 <= j < keep_shown(c, more).len() && #[trigger] keep_shown(c, more)[j].name == n)
            == ((exists|j: int| 0 <= j < c.len() && #[trigger] c[j].name == n) && !hidden_by_any(more, n)),
{
    lemma_kept_positions(c, more);
    let ks = keep_shown(c, more);
    let kp = kept_positions(c, more);
    if exists|j: int| 0 <= j < ks.len() && #[trigger] ks[j].name == n {
        let j = choose|j: int| 0 <= j < ks.len() && #[trigger] ks[j].name == n;
        assert(c[kp[j]].name == n);
    }
    if (exists|j: int| 0 <= j < c.len() && #[trigger] c[j].name == n) && !hidden_by_any(more, n) {
        let j = choose|j: int| 0 <= j < c.len() && #[trigger] c[j].name == n;
        assert(shown_by(more, c[j]));
        let i = choose|i: int| 0 <= i < kp.len() && kp[i] == j;
        assert(ks[i].name == n);
    }
}

proof fn lemma_first_by_name_keep(c: Seq<AppEntryView>, more: Seq<Seq<char>>)
    ensures
        first_by_name(keep_shown(c, more)) == keep_shown(first_by_name(c), more),
    decreases c.len(),
{
    if c.len() > 0 {
        let c1 = c.drop_last();
        let last = c.last();
        lemma_first_by_name_keep(c1, more);
        let k = keep_shown(c, more);
        let f1 = first_by_name(c1);
        if exists|j: int| 0 <= j < c.len() - 1 && #[trigger] c[j].name == last.name {
            assert(first_by_name(c) == f1);
        } else {
            assert(first_by_name(c) == f1.push(last));
            assert(f1.push(last).drop_last() =~= f1);
            assert(f1.push(last).last() == last);
        }
        if shown_by(more, last) {
            assert(k.drop_last() =~= keep_shown(c1, more));
            assert(k.last() == last);
            lemma_names_kept(c1, more, last.name);
            if exists|j: int| 0 <= j < c.len() - 1 && #[trigger] c[j].name == last.name {
                let j = choose|j: int| 0 <= j < c.len() - 1 && #[trigger] c[j].name == last.name;
                assert(c1[j].name == last.name);
                let i = choose|i: int| 0 <= i < keep_shown(c1, more).len() && #[trigger] keep_shown(c1, more)[i].name == last.name;
                assert(k[i].name == k.last().name);
            } else {
                if exists|i: int| 0 <= i < k.len() - 1 && #[trigger] k[i].name == k.last().name {
                    let i = choose|i: int| 0 <= i < k.len() - 1 && #[trigger] k[i].name == k.last().name;
                    assert(keep_shown(c1, more)[i].name == last.name);
                    let j = choose|j: int| 0 <= j < c1.len() && #[trigger] c1[j].name == last.name;
                    assert(c[j].name == last.name);
                }
            }
        }
    }
}

/// A stable sort keeps its order when entries are taken away: sorting the
/// entries that `more` leaves shown gives the shown entries of the sorted
/// list, in the same order.
proof fn lemma_sorted_keep(
    d: Seq<AppEntryView>,
    s1: Seq<AppEntryView>,
    o1: Seq<int>,
    s2: Seq<AppEntryView>,
    o2: Seq<int>,
    more: Seq<Seq<char>>,
)
    requires
        forall|i: int, j: int| 0 <= i < j < d.len() ==> d[i] != d[j],
        stable_sorted_by_key(s1, d, o1),
        stable_sorted_by_key(s2, keep_shown(d, more), o2),
    ensures
        s2 == keep_shown(s1, more),
{
    let t = keep_shown(s1, more);
    let g = kept_positions(s1, more);
    let dk = keep_shown(d, more);
    let h = kept_positions(d, more);
    lemma_kept_positions(s1, more);
    lemma_kept_positions(d, more);
    // elements of d have one index each
    assert forall|a: int, b: int| 0 <= a < d.len() && 0 <= b < d.len() && d[a] == d[b] implies a == b by {
        if a < b {
            assert(d[a] != d[b]);
        } else if b < a {
            assert(d[b] != d[a]);
        }
    }
    // t[p] is d[o1[g[p]]], s2[q] is d[h[o2[q]]]
    assert forall|p: int| 0 <= p < t.len() implies #[trigger] t[p] == d[o1[g[p]]] && 0 <= o1[g[p]] < d.len() by {
        assert(t[p] == s1[g[p]]);
        assert(s1[g[p]] == d[o1[g[p]]]);
    }
    assert forall|q: int| 0 <= q < s2.len() implies #[trigger] s2[q] == d[h[o2[q]]] && 0 <= h[o2[q]] < d.len() by {
        assert(s2[q] == dk[o2[q]]);
        assert(dk[o2[q]] == d[h[o2[q]]]);
    }
    // t and s2 hold distinct entries
    assert forall|p: int, q: int| 0 <= p < q < t.len() implies t[p] != t[q] by {
        assert(g[p] < g[q]);
        assert(o1[g[p]] != o1[g[q]]);
    }
    assert forall|p: int, q: int| 0 <= p < q < s2.len() implies s2[p] != s2[q] by {
        assert(o2[p] != o2[q]);
        if o2[p] < o2[q] {
            assert(h[o2[p]] < h[o2[q]]);
        } else {
            assert(h[o2[q]] < h[o2[p]]);
        }
    }
    // every entry of s2 is in t, and every entry of t is in s2
    assert forall|p: int| 0 <= p < s2.len() implies t.contains(#[trigger] s2[p]) by {
        let m = h[o2[p]];
        lemma_distinct_indices_cover(o1, d.len() as int, m);
        let r = choose|r: int| 0 <= r < d.len() && o1[r] == m;
        assert(s1[r] == s2[p]);
        assert(shown_by(more, dk[o2[p]]));
        assert(shown_by(more, s1[r]));
        let q = choose|q: int| 0 <= q < g.len() && g[q] == r;
        assert(t[q] == s1[r]);
    }
    assert forall|p: int| 0 <= p < t.len() implies s2.contains(#[trigger] t[p]) by {
        let m = o1[g[p]];
        assert(shown_by(more, d[m]));
        let i = choose|i: int| 0 <= i < h.len() && h[i] == m;
        lemma_distinct_indices_cover(o2, dk.len() as int, i);
        let q = choose|q: int| 0 <= q < dk.len() && o2[q] == i;
        assert(s2[q] == t[p]);
    }
    lemma_prefix_equal(d, s1, o1, s2, o2, t, g, h, more, if t.len() < s2.len() { t.len() as int } else { s2.len() as int });
    if t.len() < s2.len() {
        let p = t.len() as int;
        assert(t.contains(s2[p]));
        let q = choose|q: int| 0 <= q < t.len() && t[q] == s2[p];
        assert(s2[q] == t[q]);
        assert(s2[q] != s2[p]);
    } else if s2.len() < t.len() {
        let p = s2.len() as int;
        assert(s2.contains(t[p]));
        let q = choose|q: int| 0 <= q < s2.len() && s2[q] == t[p];
        assert(t[q] == s2[q]);
        assert(t[q] != t[p]);
    }
    assert(s2 =~= t);
}

proof fn lemma_prefix_equal(
    d: Seq<AppEntryView>,
    s1: Seq<AppEntryView>,
    o1: Seq<int>,
    s2: Seq<AppEntryView>,
    o2: Seq<int>,
    t: Seq<AppEntryView>,
    g: Seq<int>,
    h: Seq<int>,
    more: Seq<Seq<char>>,
    n: int,
)
    requires
        0 <= n <= t.len(),
        n <= s2.len(),
        stable_sorted_by_key(s1, d, o1),
        stable_sorted_by_key(s2, keep_shown(d, more), o2),
        t == keep_shown(s1, more),
        g == kept_positions(s1, more),
        h == kept_positions(d, more),
        g.len() == t.len(),
        h.len() == keep_shown(d, more).len(),
        forall|i: int, j: int| 0 <= i < j < g.len() ==> g[i] < g[j],
        forall|i: int| 0 <= i < g.len() ==> 0 <= #[trigger] g[i] < s1.len(),
        forall|i: int, j: int| 0 <= i < j < h.len() ==> h[i] < h[j],
        forall|a: int, b: int| 0 <= a < d.len() && 0 <= b < d.len() && d[a] == d[b] ==> a == b,
        forall|p: int| 0 <= p < t.len() ==> #[trigger] t[p] == d[o1[g[p]]] && 0 <= o1[g[p]] < d.len(),
        forall|q: int| 0 <= q < s2.len() ==> #[trigger] s2[q] == d[h[o2[q]]] && 0 <= h[o2[q]] < d.len(),
        forall|p: int, q: int| 0 <= p < q < s2.len() ==> s2[p] != s2[q],
        forall|p: int, q: int| 0 <= p < q < t.len() ==> t[p] != t[q],
        forall|p: int| 0 <= p < s2.len() ==> t.contains(#[trigger] s2[p]),
        forall|p: int| 0 <= p < t.len() ==> s2.contains(#[trigger] t[p]),
    ensures
        forall|p: int| 0 <= p < n ==> #[trigger] t[p] == s2[p],
    decreases n,
{
    if n > 0 {
        lemma_prefix_equal(d, s1, o1, s2, o2, t, g, h, more, n - 1);
        let p = n - 1;
        let v = t[p];
        let w = s2[p];
        if v != w {
            assert(t.contains(s2[p]));
        let q = choose|q: int| 0 <= q < t.len() && t[q] == s2[p];
            assert(s2.contains(t[p]));
            let q2 = choose|q2: int| 0 <= q2 < s2.len() && s2[q2] == t[p];
            if q < p {
                assert(t[q] == s2[q]);
                assert(s2[q] != s2[p]);
            }
            if q2 < p {
                assert(s2[q2] == t[q2]);
                assert(t[q2] != t[p]);
            }
            assert(q > p && q2 > p);
            // in t: v before w
            assert(g[p] < g[q]);
            assert(s1[g[p]] == v && s1[g[q]] == w);
            // in s2: w before v
            assert(o2[p] != o2[q2]);
            lemma_text_lt_order(sort_key(v), sort_key(w), sort_key(v));
            assert(o1[g[p]] == h[o2[q2]]);
            assert(o1[g[q]] == h[o2[p]]);
            if o2[q2] < o2[p] {
                assert(h[o2[q2]] < h[o2[p]]);
            }
            if o2[p] < o2[q2] {
                assert(h[o2[p]] < h[o2[q2]]);
            }
            assert(false);
        }
    }
}

/// More hidden-app patterns only filter the application list: the list
/// loaded with `patterns` and `more` is the list loaded with `patterns`
/// without the entries that `more` hides, in the same order.
pub proof fn law_extra_patterns_filter_list(
    contents: Seq<Seq<char>>,
    patterns: Seq<Seq<char>>,
    more: Seq<Seq<char>>,
    sorted: Seq<AppEntryView>,
    order: Seq<int>,
    sorted_more: Seq<AppEntryView>,
    order_more: Seq<int>,
)
    requires
        stable_sorted_by_key(sorted, first_by_name(parsed_entries(contents, patterns)), order),
        stable_sorted_by_key(
            sorted_more,
            first_by_name(parsed_entries(contents, patterns + more)),
            order_more,
        ),
    ensures
        sorted_more == keep_shown(sorted, more),
{
    let found = parsed_entries(contents, patterns);
    lemma_parsed_more(contents, patterns, more);
    lemma_first_by_name_keep(found, more);
    let d = first_by_name(found);
    lemma_first_by_name_distinct(found);
    assert forall|i: int, j: int| 0 <= i < j < d.len() implies d[i] != d[j] by {
        assert(d[i].name != d[j].name);
    }
    lemma_sorted_keep(d, sorted, order, sorted_more, order_more, more);
}

} // verus!
