use vstd::prelude::*;

use crate::config::strings_view;
use crate::desktop::{desktop_entry, parse_desktop_entry, AppEntry, AppEntryView};
use crate::text::{chars_of, lowercase, to_lowercase};

verus! {

/// `a` comes strictly before `b` in the order of `str`'s `Ord`: character by
/// character on code points, a proper prefix first.
pub open spec fn text_lt(a: Seq<char>, b: Seq<char>) -> bool
    decreases a.len(),
{
    if a.len() == 0 {
        b.len() > 0
    } else if b.len() == 0 {
        false
    } else if a[0] != b[0] {
        a[0] < b[0]
    } else {
        text_lt(a.drop_first(), b.drop_first())
    }
}

/// `text_lt` is a strict total order.
pub proof fn lemma_text_lt_order(a: Seq<char>, b: Seq<char>, c: Seq<char>)
    ensures
        !text_lt(a, a),
        text_lt(a, b) && text_lt(b, c) ==> text_lt(a, c),
        text_lt(a, b) || a == b || text_lt(b, a),
        !(text_lt(a, b) && text_lt(b, a)),
    decreases a.len(),
{
    if a.len() > 0 && b.len() > 0 {
        let cc = if c.len() > 0 { c.drop_first() } else { a.drop_first() };
        lemma_text_lt_order(a.drop_first(), b.drop_first(), cc);
        if a[0] == b[0] && a.drop_first() == b.drop_first() {
            assert forall|k: int| 0 <= k < a.len() implies a[k] == b[k] by {
                if k > 0 {
                    assert(a[k] == a.drop_first()[k - 1]);
                    assert(b[k] == b.drop_first()[k - 1]);
                }
            }
            assert(a =~= b);
        }
    } else if a.len() > 0 {
        lemma_text_lt_order(a.drop_first(), a.drop_first(), a.drop_first());
    }
    if a.len() == 0 && b.len() == 0 {
        assert(a =~= b);
    }
}

/// Whether `a` comes strictly before `b` (see `text_lt`).
fn less_text(a: &Vec<char>, b: &Vec<char>) -> (r: bool)
    ensures
        r == text_lt(a@, b@),
{
    let mut i: usize = 0;
    assert(a@.skip(0) =~= a@);
    assert(b@.skip(0) =~= b@);
    while i < a.len() && i < b.len() && a[i] == b[i]
        invariant
            i <= a.len(),
            i <= b.len(),
            text_lt(a@, b@) == text_lt(a@.skip(i as int), b@.skip(i as int)),
        decreases a.len() - i,
    {
        let ghost x = a@.skip(i as int);
        let ghost y = b@.skip(i as int);
        assert(x.drop_first() =~= a@.skip(i + 1));
        assert(y.drop_first() =~= b@.skip(i + 1));
        assert(x[0] == y[0]);
        i = i + 1;
    }
    let ghost x = a@.skip(i as int);
    let ghost y = b@.skip(i as int);
    if i == b.len() {
        assert(y.len() == 0);
        false
    } else if i == a.len() {
        assert(x.len() == 0);
        true
    } else {
        assert(x[0] == a@[i as int] && y[0] == b@[i as int]);
        a[i] < b[i]
    }
}

/// The key by which the application list is ordered.
pub open spec fn sort_key(e: AppEntryView) -> Seq<char> {
    lowercase(e.name)
}

/// The entries of `c` whose name does not occur earlier in `c`, in order.
pub open spec fn first_by_name(c: Seq<AppEntryView>) -> Seq<AppEntryView>
    decreases c.len(),
{
    if c.len() == 0 {
        Seq::empty()
    } else if exists|j: int| 0 <= j < c.len() - 1 && #[trigger] c[j].name == c.last().name {
        first_by_name(c.drop_last())
    } else {
        first_by_name(c.drop_last()).push(c.last())
    }
}

/// `sorted` holds `entries[order[0]], entries[order[1]], ...`, where `order`
/// is a permutation of the indices that orders the entries by `sort_key`
/// and, among equal keys, keeps their original order.
pub open spec fn stable_sorted_by_key(
    sorted: Seq<AppEntryView>,
    entries: Seq<AppEntryView>,
    order: Seq<int>,
) -> bool {
    &&& order.len() == entries.len()
    &&& sorted.len() == entries.len()
    &&& forall|i: int| 0 <= i < order.len() ==> 0 <= #[trigger] order[i] < entries.len()
    &&& forall|i: int| 0 <= i < order.len() ==> #[trigger] sorted[i] == entries[order[i]]
    &&& forall|i: int, j: int| 0 <= i < j < order.len() ==> order[i] != order[j]
    &&& forall|i: int, j: int|
        0 <= i < j < order.len() ==> text_lt(sort_key(sorted[i]), sort_key(sorted[j])) || (
        sort_key(sorted[i]) == sort_key(sorted[j]) && order[i] < order[j])
}

pub open spec fn views(v: Seq<AppEntry>) -> Seq<AppEntryView> {
    v.map_values(|e: AppEntry| e@)
}

/// Indices `0..keys.len()` ordered by key, ties by index.
fn stable_order(keys: &Vec<Vec<char>>) -> (order: Vec<usize>)
    ensures
        order.len() == keys.len(),
        forall|i: int| 0 <= i < order.len() ==> #[trigger] order[i] < keys.len(),
        forall|i: int, j: int| 0 <= i < j < order.len() ==> order[i] != order[j],
        forall|i: int, j: int|
            0 <= i < j < order.len() ==> text_lt(keys@[order[i] as int]@, keys@[order[j] as int]@)
                || (keys@[order[i] as int]@ == keys@[order[j] as int]@ && order[i] < order[j]),
{
    let mut order: Vec<usize> = Vec::new();
    let mut n: usize = 0;
    while n < keys.len()
        invariant
            n <= keys.len(),
            order.len() == n,
            forall|i: int| 0 <= i < order.len() ==> #[trigger] order[i] < n,
            forall|i: int, j: int| 0 <= i < j < order.len() ==> order[i] != order[j],
            forall|i: int, j: int|
                0 <= i < j < order.len() ==> text_lt(
                    keys@[order[i] as int]@,
                    keys@[order[j] as int]@,
                ) || (keys@[order[i] as int]@ == keys@[order[j] as int]@ && order[i] < order[j]),
        decreases keys.len() - n,
    {
        let mut p: usize = 0;
        while p < order.len() && !less_text(&keys[n], &keys[order[p]])
            invariant
                p <= order.len(),
                n < keys.len(),
                forall|i: int| 0 <= i < order.len() ==> #[trigger] order[i] < n,
                forall|i: int| 0 <= i < p ==> !text_lt(keys@[n as int]@, keys@[#[trigger] order[i] as int]@),
            decreases order.len() - p,
        {
            p = p + 1;
        }
        let ghost old_order = order@;
        order.insert(p, n);
        proof {
            assert forall|i: int| 0 <= i < order.len() implies #[trigger] order[i] < n + 1 by {
                if i < p {
                    assert(order[i] == old_order[i]);
                } else if i > p {
                    assert(order[i] == old_order[i - 1]);
                }
            }
            assert forall|i: int, j: int| 0 <= i < j < order.len() implies order[i] != order[j] by {
                if i < p && j < p {
                } else if i < p && j == p {
                    assert(old_order[i] < n);
                } else if i < p {
                    assert(order[j] == old_order[j - 1]);
                } else if i == p {
                    assert(order[j] == old_order[j - 1]);
                    assert(old_order[j - 1] < n);
                } else {
                    assert(order[i] == old_order[i - 1]);
                    assert(order[j] == old_order[j - 1]);
                }
            }
            assert forall|i: int, j: int| 0 <= i < j < order.len() implies text_lt(
                keys@[order[i] as int]@,
                keys@[order[j] as int]@,
            ) || (keys@[order[i] as int]@ == keys@[order[j] as int]@ && order[i] < order[j]) by {
                let kn = keys@[n as int]@;
                if i < p && j < p {
                    assert(order[i] == old_order[i] && order[j] == old_order[j]);
                } else if i < p && j == p {
                    let ki = keys@[old_order[i] as int]@;
                    assert(order[i] == old_order[i]);
                    assert(!text_lt(kn, ki));
                    lemma_text_lt_order(ki, kn, ki);
                    assert(old_order[i] < n);
                } else if i < p {
                    assert(order[i] == old_order[i] && order[j] == old_order[j - 1]);
                } else if i == p {
                    // p < old_order.len() here, and the key at p is larger than kn
                    assert(order[j] == old_order[j - 1]);
                    let kp = keys@[old_order[p as int] as int]@;
                    let kj = keys@[old_order[j - 1] as int]@;
                    assert(text_lt(kn, kp));
                    if j - 1 > p {
                        assert(text_lt(kp, kj) || kp == kj);
                        lemma_text_lt_order(kn, kp, kj);
                    }
                } else {
                    assert(order[i] == old_order[i - 1]);
                    assert(order[j] == old_order[j - 1]);
                }
            }
        }
        n = n + 1;
    }
    order
}

pub proof fn lemma_first_by_name_names(c: Seq<AppEntryView>, name: Seq<char>)
    ensures
        (exists|k: int| 0 <= k < first_by_name(c).len() && #[trigger] first_by_name(c)[k].name == name)
            == (exists|j: int| 0 <= j < c.len() && #[trigger] c[j].name == name),
    decreases c.len(),
{
    if c.len() > 0 {
        let prev = first_by_name(c.drop_last());
        lemma_first_by_name_names(c.drop_last(), name);
        if exists|j: int| 0 <= j < c.len() && #[trigger] c[j].name == name {
            let j = choose|j: int| 0 <= j < c.len() && #[trigger] c[j].name == name;
            if j < c.len() - 1 {
                assert(c.drop_last()[j].name == name);
                let k = choose|k: int| 0 <= k < prev.len() && #[trigger] prev[k].name == name;
                assert(first_by_name(c)[k] == prev[k]);
            } else if exists|i: int| 0 <= i < c.len() - 1 && #[trigger] c[i].name == c.last().name {
                let i = choose|i: int| 0 <= i < c.len() - 1 && #[trigger] c[i].name == c.last().name;
                assert(c.drop_last()[i].name == name);
                let k = choose|k: int| 0 <= k < prev.len() && #[trigger] prev[k].name == name;
                assert(first_by_name(c)[k] == prev[k]);
            } else {
                assert(first_by_name(c)[prev.len() as int] == c.last());
            }
        }
        if exists|k: int| 0 <= k < first_by_name(c).len() && #[trigger] first_by_name(c)[k].name == name {
            let k = choose|k: int| 0 <= k < first_by_name(c).len() && #[trigger] first_by_name(c)[k].name == name;
            if k < prev.len() {
                assert(first_by_name(c)[k] == prev[k]);
                let j = choose|j: int| 0 <= j < c.drop_last().len() && #[trigger] c.drop_last()[j].name == name;
                assert(c[j].name == name);
            } else {
                assert(c[c.len() - 1].name == name);
            }
        }
    }
}

/// Keeps the first entry of each name, then orders the entries
/// alphabetically (case-insensitively, by the lower-case form of the name),
/// keeping the scan order among names with the same lower-case form.
pub fn collect_apps(candidates: &Vec<AppEntry>) -> (apps: Vec<AppEntry>)
    ensures
        exists|order: Seq<int>|
            stable_sorted_by_key(views(apps@), first_by_name(views(candidates@)), order),
{
    let ghost cv = views(candidates@);
    let mut kept: Vec<AppEntry> = Vec::new();
    let mut i: usize = 0;
    assert(cv.take(0) =~= Seq::<AppEntryView>::empty());
    while i < candidates.len()
        invariant
            i <= candidates.len(),
            cv == views(candidates@),
            views(kept@) == first_by_name(cv.take(i as int)),
        decreases candidates.len() - i,
    {
        let ghost t = cv.take(i + 1);
        assert(t.drop_last() =~= cv.take(i as int));
        assert(t.last() == candidates@[i as int]@);
        let mut seen = false;
        let mut k: usize = 0;
        while k < kept.len()
            invariant
                k <= kept.len(),
                i < candidates.len(),
                !seen ==> forall|m: int| 0 <= m < k ==> kept@[m].name@ != candidates@[i as int].name@,
                seen ==> exists|m: int| 0 <= m < kept.len() && kept@[m].name@ == candidates@[i as int].name@,
            decreases kept.len() - k,
        {
            if kept[k].name == candidates[i].name {
                seen = true;
            }
            k = k + 1;
        }
        proof {
            lemma_first_by_name_names(cv.take(i as int), candidates@[i as int].name@);
            let f = first_by_name(cv.take(i as int));
            assert(forall|m: int| 0 <= m < kept.len() ==> #[trigger] f[m] == kept@[m]@);
            if seen {
                let m = choose|m: int| 0 <= m < kept.len() && kept@[m].name@ == candidates@[i as int].name@;
                assert(f[m].name == candidates@[i as int].name@);
                let j = choose|j: int| 0 <= j < cv.take(i as int).len() && #[trigger] cv.take(i as int)[j].name == candidates@[i as int].name@;
                assert(t[j].name == t.last().name);
            } else {
                assert(!exists|j: int| 0 <= j < t.len() - 1 && #[trigger] t[j].name == t.last().name) by {
                    if exists|j: int| 0 <= j < t.len() - 1 && #[trigger] t[j].name == t.last().name {
                        let j = choose|j: int| 0 <= j < t.len() - 1 && #[trigger] t[j].name == t.last().name;
                        assert(cv.take(i as int)[j].name == candidates@[i as int].name@);
                        let m = choose|m: int| 0 <= m < f.len() && #[trigger] f[m].name == candidates@[i as int].name@;
                        assert(kept@[m]@.name == f[m].name);
                    }
                }
            }
        }
        if !seen {
            let ghost before = kept@;
            kept.push(candidates[i].duplicate());
            assert(views(kept@) =~= views(before).push(candidates@[i as int]@));
        }
        i = i + 1;
    }
    assert(cv.take(candidates.len() as int) =~= cv);
    let ghost d = views(kept@);
    let mut keys: Vec<Vec<char>> = Vec::new();
    let mut j: usize = 0;
    while j < kept.len()
        invariant
            j <= kept.len(),
            d == views(kept@),
            keys.len() == j,
            forall|m: int| 0 <= m < j ==> #[trigger] keys@[m]@ == sort_key(d[m]),
        decreases kept.len() - j,
    {
        let lower = to_lowercase(kept[j].name.as_str());
        keys.push(chars_of(lower.as_str()));
        j = j + 1;
    }
    let order = stable_order(&keys);
    let mut apps: Vec<AppEntry> = Vec::new();
    let mut k: usize = 0;
    while k < order.len()
        invariant
            k <= order.len(),
            order.len() == kept.len(),
            d == views(kept@),
            forall|i: int| 0 <= i < order.len() ==> #[trigger] order[i] < kept.len(),
            apps.len() == k,
            forall|m: int| 0 <= m < k ==> #[trigger] apps@[m]@ == d[order[m] as int],
        decreases order.len() - k,
    {
        apps.push(kept[order[k]].duplicate());
        k = k + 1;
    }
    let ghost ord = order@.map_values(|x: usize| x as int);
    proof {
        let av = views(apps@);
        assert forall|i: int| 0 <= i < ord.len() implies #[trigger] av[i] == d[ord[i]] by {
            assert(av[i] == apps@[i]@);
        }
        assert forall|i: int, j: int| 0 <= i < j < ord.len() implies text_lt(
            sort_key(av[i]),
            sort_key(av[j]),
        ) || (sort_key(av[i]) == sort_key(av[j]) && ord[i] < ord[j]) by {
            assert(av[i] == d[ord[i]]);
            assert(av[j] == d[ord[j]]);
            assert(keys@[order[i] as int]@ == sort_key(d[ord[i]]));
            assert(keys@[order[j] as int]@ == sort_key(d[ord[j]]));
        }
        assert forall|i: int, j: int| 0 <= i < j < ord.len() implies ord[i] != ord[j] by {
            assert(order[i] != order[j]);
        }
        assert forall|i: int| 0 <= i < ord.len() implies 0 <= #[trigger] ord[i] < d.len() by {
            assert(order[i] < kept.len());
        }
    }
    assert(stable_sorted_by_key(views(apps@), d, ord));
    apps
}


/// The applications that the files with texts `contents` describe, in order,
/// skipping files that describe none (see `desktop_entry`).
pub open spec fn parsed_entries(contents: Seq<Seq<char>>, patterns: Seq<Seq<char>>) -> Seq<
    AppEntryView,
>
    decreases contents.len(),
{
    if contents.len() == 0 {
        Seq::empty()
    } else {
        let prev = parsed_entries(contents.drop_last(), patterns);
        match desktop_entry(contents.last(), patterns) {
            Some(e) => prev.push(e),
            None => prev,
        }
    }
}

/// Parses the texts of the .desktop files found (in scan order), drops
/// hidden and invisible entries, keeps the first entry of each name and
/// returns the entries sorted alphabetically.
pub fn load_desktop_apps(contents: &Vec<String>, hidden_patterns: &[String]) -> (apps: Vec<AppEntry>)
    ensures
        exists|order: Seq<int>|
            #[trigger] stable_sorted_by_key(
                views(apps@),
                first_by_name(
                    parsed_entries(strings_view(contents@), strings_view(hidden_patterns@)),
                ),
                order,
            ),
{
    let ghost cs = strings_view(contents@);
    let ghost ps = strings_view(hidden_patterns@);
    let mut found: Vec<AppEntry> = Vec::new();
    let mut i: usize = 0;
    assert(cs.take(0) =~= Seq::<Seq<char>>::empty());
    while i < contents.len()
        invariant
            i <= contents.len(),
            cs == strings_view(contents@),
            ps == strings_view(hidden_patterns@),
            views(found@) == parsed_entries(cs.take(i as int), ps),
        decreases contents.len() - i,
    {
        let ghost t = cs.take(i + 1);
        assert(t.drop_last() =~= cs.take(i as int));
        assert(t.last() == contents@[i as int]@);
        let parsed = parse_desktop_entry(contents[i].as_str(), hidden_patterns);
        match parsed {
            Some(e) => {
                let ghost before = found@;
                found.push(e);
                assert(views(found@) =~= views(before).push(e@));
            },
            None => {},
        }
        i = i + 1;
    }
    assert(cs.take(contents.len() as int) =~= cs);
    collect_apps(&found)
}

} // verus!
