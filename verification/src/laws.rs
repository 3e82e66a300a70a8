use vstd::prelude::*;

use crate::catalog::{parsed_entries, first_by_name, lemma_first_by_name_names, lemma_text_lt_order, sort_key, stable_sorted_by_key, text_lt};
use crate::config::{default_config, within_documented_ranges, ConfigView};
use crate::desktop::{cleaned_exec, field_codes, strip_code, strip_codes, desktop_entry, hidden_by_any, starts_with, AppEntryView};
use crate::glob::{ascii_hides, glob, hides, lemma_glob_last, lemma_glob_literal, lemma_glob_star};
use crate::dirs::stamp_of;
use crate::model::{grid_width, no_effects, popup_closed, columns, grid_layout, step, without, Message, ModelView, PopupAction, PopupView};
use crate::text::{
    ascii_lower, ascii_lower_text, ascii_upper, ascii_upper_text, is_ascii_char, is_ascii_text, is_white_space, lemma_trim_end_take,
    lemma_trim_end_is_prefix, lemma_trim_is_inner, lemma_trim_start_skip, lowercase, trim, trim_end,
    trim_start,
};

verus! {

/// A pattern without `*` matches exactly the name equal to it.
pub proof fn law_literal_pattern_is_equality(name: Seq<char>, pattern: Seq<char>)
    requires
        !pattern.contains('*'),
    ensures
        glob(name, pattern) == (name == pattern),
{
    let e = Seq::<char>::empty();
    assert(pattern + e =~= pattern);
    lemma_glob_literal(name, pattern, e);
    if name == pattern {
        assert(name.take(pattern.len() as int) =~= pattern);
        assert(name.skip(pattern.len() as int) =~= e);
    }
    if glob(name, pattern) {
        assert(name.skip(pattern.len() as int).len() == 0);
        assert(name =~= name.take(pattern.len() as int));
    }
}

/// `*` alone matches every name.
pub proof fn law_star_matches_everything(name: Seq<char>)
    ensures
        glob(name, seq!['*']),
{
    let e = Seq::<char>::empty();
    assert(seq!['*'] + e =~= seq!['*']);
    lemma_glob_star(name, e);
    assert(name.skip(name.len() as int) =~= e);
    assert(glob(name.skip(name.len() as int), e));
}

/// `text*` matches exactly the names that begin with `text`.
pub proof fn law_trailing_star_is_prefix(name: Seq<char>, text: Seq<char>)
    requires
        !text.contains('*'),
    ensures
        glob(name, text + seq!['*']) == starts_with(name, text),
{
    lemma_glob_literal(name, text, seq!['*']);
    if text.len() <= name.len() {
        law_star_matches_everything(name.skip(text.len() as int));
    }
}

/// `*text` matches exactly the names that end with `text`.
pub proof fn law_leading_star_is_suffix(name: Seq<char>, text: Seq<char>)
    requires
        !text.contains('*'),
    ensures
        glob(name, seq!['*'] + text) == (text.len() <= name.len() && name.skip(
            name.len() - text.len(),
        ) == text),
{
    lemma_glob_last(name, text);
}

/// Hiding ignores case: names with the same lower-case form are hidden by
/// the same patterns.
pub proof fn law_hiding_ignores_case(pattern: Seq<char>, a: Seq<char>, b: Seq<char>)
    requires
        lowercase(a) == lowercase(b),
    ensures
        hides(pattern, a) == hides(pattern, b),
{
}

/// Hiding ignores white space around a pattern.
pub proof fn law_hiding_ignores_surrounding_space(p: Seq<char>, q: Seq<char>, name: Seq<char>)
    requires
        trim(p) == trim(q),
    ensures
        hides(p, name) == hides(q, name),
{
}


/// A parsed entry has a name, and no hidden-app pattern hides it.
pub proof fn law_parsed_entry_is_shown(content: Seq<char>, patterns: Seq<Seq<char>>)
    ensures
        desktop_entry(content, patterns) matches Some(e) ==> e.name.len() > 0 && !hidden_by_any(
            patterns,
            e.name,
        ),
{
}

/// One more hidden-app pattern removes the entry exactly when it hides the
/// entry's name, and changes nothing else.
pub proof fn law_extra_pattern_only_hides(
    content: Seq<char>,
    patterns: Seq<Seq<char>>,
    extra: Seq<char>,
)
    ensures
        desktop_entry(content, patterns.push(extra)) == match desktop_entry(content, patterns) {
            Some(e) => if hides(extra, e.name) {
                None
            } else {
                Some(e)
            },
            None => None,
        },
{
    let ps = patterns.push(extra);
    assert forall|name: Seq<char>| hidden_by_any(ps, name) == (hidden_by_any(patterns, name) || hides(extra, name)) by {
        if hidden_by_any(ps, name) {
            let i = choose|i: int| 0 <= i < ps.len() && hides(#[trigger] ps[i], name);
            if i < patterns.len() {
                assert(ps[i] == patterns[i]);
            }
        }
        if hidden_by_any(patterns, name) {
            let i = choose|i: int| 0 <= i < patterns.len() && hides(#[trigger] patterns[i], name);
            assert(ps[i] == patterns[i]);
        }
        if hides(extra, name) {
            assert(ps[patterns.len() as int] == extra);
        }
    }
}

pub proof fn lemma_first_by_name_distinct(c: Seq<AppEntryView>)
    ensures
        forall|i: int, j: int|
            0 <= i < j < first_by_name(c).len() ==> first_by_name(c)[i].name != first_by_name(c)[j].name,
    decreases c.len(),
{
    if c.len() > 0 {
        let prev = first_by_name(c.drop_last());
        lemma_first_by_name_distinct(c.drop_last());
        lemma_first_by_name_names(c.drop_last(), c.last().name);
        if !exists|j: int| 0 <= j < c.len() - 1 && #[trigger] c[j].name == c.last().name {
            assert forall|i: int, j: int|
                0 <= i < j < first_by_name(c).len() implies first_by_name(c)[i].name != first_by_name(c)[j].name by {
                if j == prev.len() {
                    assert(first_by_name(c)[i] == prev[i]);
                    if prev[i].name == c.last().name {
                        let k = choose|k: int| 0 <= k < c.drop_last().len() && #[trigger] c.drop_last()[k].name == c.last().name;
                        assert(c[k].name == c.last().name);
                    }
                } else {
                    assert(first_by_name(c)[i] == prev[i]);
                    assert(first_by_name(c)[j] == prev[j]);
                }
            }
        }
    }
}

proof fn lemma_first_by_name_from(c: Seq<AppEntryView>)
    ensures
        forall|k: int| 0 <= k < first_by_name(c).len() ==> exists|j: int| 0 <= j < c.len() && c[j] == #[trigger] first_by_name(c)[k],
    decreases c.len(),
{
    if c.len() > 0 {
        let prev = first_by_name(c.drop_last());
        lemma_first_by_name_from(c.drop_last());
        assert forall|k: int| 0 <= k < first_by_name(c).len() implies exists|j: int| 0 <= j < c.len() && c[j] == #[trigger] first_by_name(c)[k] by {
            if k < prev.len() {
                assert(first_by_name(c)[k] == prev[k]);
                let j = choose|j: int| 0 <= j < c.drop_last().len() && c.drop_last()[j] == #[trigger] prev[k];
                assert(c[j] == prev[k]);
            } else {
                assert(c[c.len() - 1] == first_by_name(c)[k]);
            }
        }
    }
}

/// A permutation of `0..n` given as distinct indices takes every index.
pub proof fn lemma_distinct_indices_cover(order: Seq<int>, n: int, v: int)
    requires
        order.len() == n,
        forall|i: int| 0 <= i < n ==> 0 <= #[trigger] order[i] < n,
        forall|i: int, j: int| 0 <= i < j < n ==> order[i] != order[j],
        0 <= v < n,
    ensures
        exists|i: int| 0 <= i < n && order[i] == v,
{
    broadcast use vstd::set::group_set_axioms;
    assert(order.no_duplicates()) by {
        assert forall|i: int, j: int| 0 <= i < order.len() && 0 <= j < order.len() && i != j implies order[i] != order[j] by {
            if i < j {
            } else {
                assert(order[j] != order[i]);
            }
        }
    }
    order.unique_seq_to_set();
    vstd::set_lib::lemma_int_range(0, n);
    let range = vstd::set_lib::set_int_range(0, n);
    if !(exists|i: int| 0 <= i < n && order[i] == v) {
        assert(order.to_set().subset_of(range.remove(v))) by {
            assert forall|x: int| order.to_set().contains(x) implies range.remove(v).contains(x) by {
                let i = choose|i: int| 0 <= i < order.len() && order[i] == x;
            }
        }
        vstd::set_lib::lemma_len_subset(order.to_set(), range.remove(v));
        assert(range.contains(v));
    }
}

/// The application list is in alphabetical order of the lower-case names,
/// has no two entries of the same name, holds only entries that were found,
/// and holds an entry for every name that was found.
pub proof fn law_collected_apps(
    found: Seq<AppEntryView>,
    sorted: Seq<AppEntryView>,
    order: Seq<int>,
)
    requires
        stable_sorted_by_key(sorted, first_by_name(found), order),
    ensures
        forall|i: int, j: int|
            0 <= i < j < sorted.len() ==> !text_lt(sort_key(sorted[j]), sort_key(sorted[i])),
        forall|i: int, j: int| 0 <= i < j < sorted.len() ==> sorted[i].name != sorted[j].name,
        forall|k: int| 0 <= k < sorted.len() ==> exists|j: int| 0 <= j < found.len() && found[j] == #[trigger] sorted[k],
        forall|j: int|
            #![trigger found[j]]
            0 <= j < found.len() ==> exists|k: int|
                #![trigger sorted[k]]
                0 <= k < sorted.len() && sorted[k].name == found[j].name,
{
    let d = first_by_name(found);
    lemma_first_by_name_distinct(found);
    lemma_first_by_name_from(found);
    assert forall|i: int, j: int| 0 <= i < j < sorted.len() implies !text_lt(sort_key(sorted[j]), sort_key(sorted[i])) by {
        lemma_text_lt_order(sort_key(sorted[i]), sort_key(sorted[j]), sort_key(sorted[i]));
    }
    assert forall|i: int, j: int| 0 <= i < j < sorted.len() implies sorted[i].name != sorted[j].name by {
        assert(sorted[i] == d[order[i]]);
        assert(sorted[j] == d[order[j]]);
        if order[i] < order[j] {
        } else {
            assert(order[i] != order[j]);
        }
    }
    assert forall|k: int| 0 <= k < sorted.len() implies exists|j: int| 0 <= j < found.len() && found[j] == #[trigger] sorted[k] by {
        assert(sorted[k] == d[order[k]]);
        let j = choose|j: int| 0 <= j < found.len() && found[j] == #[trigger] d[order[k]];
    }
    assert forall|j: int|
        #![trigger found[j]]
        0 <= j < found.len() implies exists|k: int|
            #![trigger sorted[k]]
            0 <= k < sorted.len() && sorted[k].name == found[j].name by {
        lemma_first_by_name_names(found, found[j].name);
        let m = choose|m: int| 0 <= m < d.len() && #[trigger] d[m].name == found[j].name;
        lemma_distinct_indices_cover(order, d.len() as int, m);
        let k = choose|k: int| 0 <= k < d.len() && order[k] == m;
        assert(sorted[k] == d[m]);
    }
}


/// Pressing the panel button twice opens the popup and closes that same
/// popup again, leaving the state as it was apart from the grid being the
/// selected view.
pub proof fn law_toggle_twice_closes(m: ModelView, first: u64, second: u64)
    requires
        m.popup is None,
    ensures
        step(m, Message::TogglePopup(first)).1.popup == PopupAction::Open(first),
        step(step(m, Message::TogglePopup(first)).0, Message::TogglePopup(second)).1.popup
            == PopupAction::Close(first),
        step(step(m, Message::TogglePopup(first)).0, Message::TogglePopup(second)).0 == (ModelView {
            popup_view: PopupView::Grid,
            ..m
        }),
{
}

/// A closed-popup notice for another popup changes nothing.
pub proof fn law_other_popup_closed_changes_nothing(m: ModelView, id: u64)
    requires
        m.popup != Some(id),
    ensures
        step(m, Message::PopupClosed(id)).0 == m,
{
}

/// Closing the popup a second time closes nothing and changes nothing.
pub proof fn law_close_popup_twice(m: ModelView)
    ensures
        popup_closed(popup_closed(m).0) == (popup_closed(m).0, PopupAction::Keep),
{
}

/// Launching an application always leaves the popup closed.
pub proof fn law_launch_closes_popup(m: ModelView, index: usize)
    ensures
        step(m, Message::LaunchApp(index)).0.popup is None,
{
}

/// Resetting gives the default configuration, whatever was set before.
pub proof fn law_reset_gives_defaults(m: ModelView)
    ensures
        step(m, Message::ResetConfig).0.config == default_config(),
{
}

/// Only a configuration from outside can leave the documented ranges: every
/// other message keeps the values within them.
pub proof fn law_settings_stay_in_documented_ranges(m: ModelView, msg: Message)
    requires
        within_documented_ranges(m.config),
        !(msg is UpdateConfig),
    ensures
        within_documented_ranges(step(m, msg).0.config),
{
}

proof fn lemma_without_facts(s: Seq<Seq<char>>, x: Seq<char>)
    ensures
        !without(s, x).contains(x),
        !s.contains(x) ==> without(s, x) == s,
        s.no_duplicates() ==> without(s, x).no_duplicates(),
        forall|y: Seq<char>| without(s, x).contains(y) ==> s.contains(y),
    decreases s.len(),
{
    if s.len() > 0 {
        let r = s.drop_last();
        lemma_without_facts(r, x);
        assert forall|y: Seq<char>| r.contains(y) implies s.contains(y) by {
            let i = choose|i: int| 0 <= i < r.len() && r[i] == y;
            assert(s[i] == y);
        }
        if !s.contains(x) {
            assert(!r.contains(x));
            if s.last() == x {
                assert(s[s.len() - 1] == x);
            }
            assert(r.push(s.last()) =~= s);
        }
        if s.no_duplicates() {
            assert(r.no_duplicates());
        }
        if s.last() != x {
            let w = without(r, x);
            assert forall|y: Seq<char>| w.push(s.last()).contains(y) implies s.contains(y) by {
                let i = choose|i: int| 0 <= i < w.push(s.last()).len() && w.push(s.last())[i] == y;
                if i == w.len() {
                    assert(s[s.len() - 1] == y);
                } else {
                    assert(w.contains(y));
                }
            }
            if w.push(s.last()).contains(x) {
                let i = choose|i: int| 0 <= i < w.push(s.last()).len() && w.push(s.last())[i] == x;
                if i < w.len() {
                    assert(w[i] == x);
                }
            }
            if s.no_duplicates() {
                assert(!r.contains(s.last())) by {
                    if r.contains(s.last()) {
                        let i = choose|i: int| 0 <= i < r.len() && r[i] == s.last();
                        assert(s[i] == s[s.len() - 1]);
                    }
                }
                assert(!w.contains(s.last()));
                assert(w.push(s.last()).no_duplicates()) by {
                    assert forall|i: int, j: int|
                        0 <= i < w.len() + 1 && 0 <= j < w.len() + 1 && i != j implies w.push(s.last())[i]
                        != w.push(s.last())[j] by {
                        if i == w.len() {
                            assert(w[j] != s.last());
                        } else if j == w.len() {
                            assert(w[i] != s.last());
                        }
                    }
                }
            }
        }
    }
}

/// Removing a pattern leaves no copy of it in the list.
pub proof fn law_removed_pattern_is_gone(m: ModelView, pattern: String)
    ensures
        !step(m, Message::RemoveHiddenApp(pattern)).0.config.hidden_apps.contains(pattern@),
{
    lemma_without_facts(m.config.hidden_apps, pattern@);
}

/// Adding the typed pattern and then removing it gives back the list as it
/// was, when the pattern was new.
pub proof fn law_add_then_remove_restores(m: ModelView, pattern: String)
    requires
        pattern@ == trim(m.hidden_app_input),
        pattern@.len() > 0,
        !m.config.hidden_apps.contains(pattern@),
    ensures
        step(step(m, Message::AddHiddenApp).0, Message::RemoveHiddenApp(pattern)).0.config.hidden_apps
            == m.config.hidden_apps,
{
    let s = m.config.hidden_apps;
    assert(s.push(pattern@).drop_last() =~= s);
    lemma_without_facts(s, pattern@);
}

/// The hidden-app list never gets a duplicate, except from a configuration
/// that arrives from outside.
pub proof fn law_patterns_stay_distinct(m: ModelView, msg: Message)
    requires
        m.config.hidden_apps.no_duplicates(),
        !(msg is UpdateConfig),
    ensures
        step(m, msg).0.config.hidden_apps.no_duplicates(),
{
    match msg {
        Message::RemoveHiddenApp(p) => {
            lemma_without_facts(m.config.hidden_apps, p@);
        },
        Message::AddHiddenApp => {
            let s = m.config.hidden_apps;
            let p = trim(m.hidden_app_input);
            if p.len() > 0 && !s.contains(p) {
                assert(s.push(p).no_duplicates()) by {
                    assert forall|i: int, j: int|
                        0 <= i < s.len() + 1 && 0 <= j < s.len() + 1 && i != j implies s.push(p)[i]
                        != s.push(p)[j] by {
                        if i == s.len() {
                            assert(s[j] != p);
                        } else if j == s.len() {
                            assert(s[i] != p);
                        }
                    }
                }
            }
        },
        Message::ResetConfig => {
            assert(default_config().hidden_apps.no_duplicates());
        },
        _ => {},
    }
}

/// The grid has at least one column; `min_cols` bounds it, and so does
/// `max_cols` when it is not 0.
pub proof fn law_columns_bounds(c: ConfigView)
    ensures
        columns(c) >= 1,
        columns(c) <= if c.min_cols >= 1 {
            c.min_cols as int
        } else {
            1
        },
        c.max_cols > 0 ==> columns(c) <= c.max_cols,
        c.max_cols == 0 && c.min_cols >= 1 ==> columns(c) == c.min_cols,
{
}

/// Every application has exactly one tile: application `i` sits in row
/// `i / cols` at slot `i % cols`.
pub proof fn law_grid_places_every_app(rows: Seq<Seq<Option<usize>>>, n: int, cols: int, i: int)
    requires
        cols >= 1,
        grid_layout(rows, n, cols),
        0 <= i < n <= usize::MAX,
    ensures
        i / cols < rows.len(),
        rows[i / cols][i % cols] == Some(i as usize),
        forall|r: int, k: int|
            0 <= r < rows.len() && 0 <= k < cols && #[trigger] rows[r][k] == Some(i as usize) ==> r
                == i / cols && k == i % cols,
{
    vstd::arithmetic::div_mod::lemma_fundamental_div_mod(i, cols);
    assert(0 <= i % cols < cols) by {
        vstd::arithmetic::div_mod::lemma_mod_bound(i, cols);
    }
    let q = i / cols;
    assert(q >= 0) by {
        vstd::arithmetic::div_mod::lemma_div_pos_is_pos(i, cols);
    }
    assert(q < rows.len()) by (nonlinear_arith)
        requires
            i == cols * q + i % cols,
            0 <= i % cols,
            i < n,
            rows.len() * cols >= n,
            cols >= 1,
            q >= 0,
    ;
    assert(q * cols + i % cols == i) by (nonlinear_arith)
        requires
            i == cols * q + i % cols,
    ;
    assert forall|r: int, k: int|
        0 <= r < rows.len() && 0 <= k < cols && #[trigger] rows[r][k] == Some(i as usize) implies r
            == i / cols && k == i % cols by {
        assert(r * cols + k >= 0) by (nonlinear_arith)
            requires
                r >= 0,
                k >= 0,
                cols >= 1,
        ;
        if r * cols + k >= n {
            assert(rows[r][k] == None::<usize>);
        }
        assert(rows[r][k] == Some((r * cols + k) as usize));
        assert(r * cols + k == i);
        vstd::arithmetic::div_mod::lemma_fundamental_div_mod_converse(i, cols, r, k);
    }
}


proof fn lemma_parsed_entries_shown(contents: Seq<Seq<char>>, patterns: Seq<Seq<char>>)
    ensures
        forall|k: int|
            0 <= k < parsed_entries(contents, patterns).len() ==> (#[trigger] parsed_entries(
                contents,
                patterns,
            )[k]).name.len() > 0 && !hidden_by_any(patterns, parsed_entries(contents, patterns)[k].name),
    decreases contents.len(),
{
    if contents.len() > 0 {
        lemma_parsed_entries_shown(contents.drop_last(), patterns);
        let prev = parsed_entries(contents.drop_last(), patterns);
        assert forall|k: int| 0 <= k < parsed_entries(contents, patterns).len() implies (
        #[trigger] parsed_entries(contents, patterns)[k]).name.len() > 0 && !hidden_by_any(
            patterns,
            parsed_entries(contents, patterns)[k].name,
        ) by {
            if k < prev.len() {
                assert(parsed_entries(contents, patterns)[k] == prev[k]);
            }
        }
    }
}

/// No application in the loaded list is hidden by a pattern, and each has a
/// name.
pub proof fn law_loaded_apps_are_not_hidden(
    contents: Seq<Seq<char>>,
    patterns: Seq<Seq<char>>,
    sorted: Seq<AppEntryView>,
    order: Seq<int>,
)
    requires
        stable_sorted_by_key(sorted, first_by_name(parsed_entries(contents, patterns)), order),
    ensures
        forall|k: int|
            0 <= k < sorted.len() ==> (#[trigger] sorted[k]).name.len() > 0 && !hidden_by_any(
                patterns,
                sorted[k].name,
            ),
{
    let found = parsed_entries(contents, patterns);
    law_collected_apps(found, sorted, order);
    lemma_parsed_entries_shown(contents, patterns);
    assert forall|k: int| 0 <= k < sorted.len() implies (#[trigger] sorted[k]).name.len() > 0
        && !hidden_by_any(patterns, sorted[k].name) by {
        let j = choose|j: int| 0 <= j < found.len() && found[j] == #[trigger] sorted[k];
    }
}

/// The sum of every observed modification time and entry count, without
/// wrap-around.
pub open spec fn observed_total(observed: Seq<(u64, u64)>) -> int
    decreases observed.len(),
{
    if observed.len() == 0 {
        0
    } else {
        observed_total(observed.drop_last()) + observed.last().0 + observed.last().1
    }
}

proof fn lemma_stamp_is_total_mod(observed: Seq<(u64, u64)>)
    ensures
        stamp_of(observed) as int == observed_total(observed) % 0x1_0000_0000_0000_0000,
    decreases observed.len(),
{
    if observed.len() > 0 {
        lemma_stamp_is_total_mod(observed.drop_last());
        let p = observed_total(observed.drop_last());
        let a = observed.last().0 as int;
        let b = observed.last().1 as int;
        let m = 0x1_0000_0000_0000_0000int;
        let inner = vstd::wrapping::u64_specs::wrapping_add(observed.last().0, observed.last().1);
        assert(inner as int == (a + b) % m);
        assert(p >= 0) by {
            lemma_total_nonneg(observed.drop_last());
        }
        vstd::arithmetic::div_mod::lemma_add_mod_noop(p, a + b, m);
        vstd::arithmetic::div_mod::lemma_mod_bound(p + a + b, m);
    }
}

proof fn lemma_total_nonneg(observed: Seq<(u64, u64)>)
    ensures
        observed_total(observed) >= 0,
    decreases observed.len(),
{
    if observed.len() > 0 {
        lemma_total_nonneg(observed.drop_last());
    }
}

proof fn lemma_total_update(observed: Seq<(u64, u64)>, i: int, x: (u64, u64))
    requires
        0 <= i < observed.len(),
    ensures
        observed_total(observed.update(i, x)) == observed_total(observed) - observed[i].0
            - observed[i].1 + x.0 + x.1,
    decreases observed.len(),
{
    let u = observed.update(i, x);
    if i == observed.len() - 1 {
        assert(u.drop_last() =~= observed.drop_last());
    } else {
        assert(u.drop_last() =~= observed.drop_last().update(i, x));
        lemma_total_update(observed.drop_last(), i, x);
    }
}

/// When the observations of one directory change by a total that is not a
/// multiple of 2^64 (its time alone changes, its count alone changes, or both
/// grow without the sum wrapping around), the fingerprint changes.
pub proof fn law_stamp_notices_change(observed: Seq<(u64, u64)>, i: int, x: (u64, u64))
    requires
        0 <= i < observed.len(),
        (x.0 + x.1) - (observed[i].0 + observed[i].1) != 0,
        -0x1_0000_0000_0000_0000 < (x.0 + x.1) - (observed[i].0 + observed[i].1)
            < 0x1_0000_0000_0000_0000,
    ensures
        stamp_of(observed.update(i, x)) != stamp_of(observed),
{
    lemma_stamp_is_total_mod(observed);
    lemma_stamp_is_total_mod(observed.update(i, x));
    lemma_total_update(observed, i, x);
    lemma_total_nonneg(observed);
    lemma_total_nonneg(observed.update(i, x));
    let t = observed_total(observed);
    let u = observed_total(observed.update(i, x));
    let m = 0x1_0000_0000_0000_0000int;
    assert(u - t != 0 && -m < u - t < m);
    if t % m == u % m {
        vstd::arithmetic::div_mod::lemma_fundamental_div_mod(t, m);
        vstd::arithmetic::div_mod::lemma_fundamental_div_mod(u, m);
        let q1 = t / m;
        let q2 = u / m;
        assert(u - t == m * (q2 - q1)) by (nonlinear_arith)
            requires
                t == m * q1 + t % m,
                u == m * q2 + u % m,
                t % m == u % m,
        ;
        assert(false) by (nonlinear_arith)
            requires
                u - t == m * (q2 - q1),
                u - t != 0,
                -m < u - t < m,
                m > 0,
        ;
    }
}


proof fn lemma_ascii_upper_char(c: char)
    ensures
        is_white_space(ascii_upper(c)) == is_white_space(c),
        is_ascii_char(c) ==> is_ascii_char(ascii_upper(c)),
        is_ascii_char(c) ==> ascii_lower(ascii_upper(c)) == ascii_lower(c),
{
    if 'a' <= c <= 'z' {
        let u = ((c as u32) - 32) as char;
        assert(u as u32 == (c as u32) - 32);
        assert('A' <= u <= 'Z');
        assert(((u as u32) + 32) as char == c);
    }
}

proof fn lemma_trim_start_map_upper(x: Seq<char>)
    ensures
        trim_start(ascii_upper_text(x)) == ascii_upper_text(trim_start(x)),
    decreases x.len(),
{
    let ux = ascii_upper_text(x);
    if x.len() > 0 {
        lemma_ascii_upper_char(x[0]);
        assert(ux[0] == ascii_upper(x[0]));
        if is_white_space(x[0]) {
            assert(ux.drop_first() =~= ascii_upper_text(x.drop_first()));
            lemma_trim_start_map_upper(x.drop_first());
        }
    }
}

proof fn lemma_trim_end_map_upper(x: Seq<char>)
    ensures
        trim_end(ascii_upper_text(x)) == ascii_upper_text(trim_end(x)),
    decreases x.len(),
{
    let ux = ascii_upper_text(x);
    if x.len() > 0 {
        lemma_ascii_upper_char(x.last());
        assert(ux.last() == ascii_upper(x.last()));
        if is_white_space(x.last()) {
            assert(ux.drop_last() =~= ascii_upper_text(x.drop_last()));
            lemma_trim_end_map_upper(x.drop_last());
        }
    }
}

proof fn lemma_trim_start_append(q: Seq<char>, r: Seq<char>)
    ensures
        trim_start(q + r) == if trim_start(q).len() > 0 {
            trim_start(q) + r
        } else {
            trim_start(r)
        },
    decreases q.len(),
{
    if q.len() == 0 {
        assert(q + r =~= r);
    } else {
        assert((q + r)[0] == q[0]);
        if is_white_space(q[0]) {
            assert((q + r).drop_first() =~= q.drop_first() + r);
            lemma_trim_start_append(q.drop_first(), r);
        }
    }
}

proof fn lemma_trim_start_all_white(s: Seq<char>)
    requires
        forall|i: int| 0 <= i < s.len() ==> is_white_space(#[trigger] s[i]),
    ensures
        trim_start(s).len() == 0,
    decreases s.len(),
{
    if s.len() > 0 {
        assert forall|i: int| 0 <= i < s.drop_first().len() implies is_white_space(
            #[trigger] s.drop_first()[i],
        ) by {
            assert(s.drop_first()[i] == s[i + 1]);
        }
        lemma_trim_start_all_white(s.drop_first());
    }
}

/// White space added around a text does not change its trimmed form.
proof fn lemma_trim_padded(pre: Seq<char>, q: Seq<char>, suf: Seq<char>)
    requires
        forall|i: int| 0 <= i < pre.len() ==> is_white_space(#[trigger] pre[i]),
        forall|i: int| 0 <= i < suf.len() ==> is_white_space(#[trigger] suf[i]),
    ensures
        trim(pre + q + suf) == trim(q),
{
    let all = pre + q + suf;
    lemma_trim_start_skip(all, pre.len() as int);
    assert(all.skip(pre.len() as int) =~= q + suf);
    lemma_trim_start_append(q, suf);
    if trim_start(q).len() > 0 {
        let t = trim_start(q);
        lemma_trim_end_take(t + suf, t.len() as int);
        assert((t + suf).take(t.len() as int) =~= t);
    } else {
        lemma_trim_start_all_white(suf);
    }
}

proof fn lemma_lower_of_upper(x: Seq<char>)
    requires
        is_ascii_text(x),
    ensures
        is_ascii_text(ascii_upper_text(x)),
        ascii_lower_text(ascii_upper_text(x))
            == ascii_lower_text(x),
{
    let ux = ascii_upper_text(x);
    assert forall|i: int| 0 <= i < ux.len() implies is_ascii_char(#[trigger] ux[i]) by {
        lemma_ascii_upper_char(x[i]);
    }
    assert forall|i: int| 0 <= i < x.len() implies #[trigger] ascii_lower_text(ux)[i] == ascii_lower_text(x)[i] by {
        lemma_ascii_upper_char(x[i]);
    }
    assert(ascii_lower_text(ux) =~= ascii_lower_text(x));
}

/// For ASCII text, hiding ignores the case of the name and of the pattern
/// and the white space around the pattern: upper-casing both and padding the
/// pattern with spaces gives the same answer (and keeps the text ASCII, so
/// `matches_hidden_pattern` answers both by `ascii_hides`).
pub proof fn law_hiding_ignores_ascii_case(pattern: Seq<char>, name: Seq<char>)
    requires
        is_ascii_text(pattern),
        is_ascii_text(name),
    ensures
        is_ascii_text(seq![' ', ' '] + ascii_upper_text(pattern) + seq![' ']),
        is_ascii_text(ascii_upper_text(name)),
        ascii_hides(
            seq![' ', ' '] + ascii_upper_text(pattern) + seq![' '],
            ascii_upper_text(name),
        ) == ascii_hides(pattern, name),
{
    let up = ascii_upper_text(pattern);
    let padded = seq![' ', ' '] + up + seq![' '];
    lemma_lower_of_upper(pattern);
    lemma_lower_of_upper(name);
    assert forall|i: int| 0 <= i < padded.len() implies is_ascii_char(#[trigger] padded[i]) by {
        if 2 <= i < 2 + up.len() {
            assert(padded[i] == up[i - 2]);
        }
    }
    lemma_trim_padded(seq![' ', ' '], up, seq![' ']);
    lemma_trim_start_map_upper(pattern);
    lemma_trim_end_map_upper(trim_start(pattern));
    let tp = trim(pattern);
    assert(trim(up) == ascii_upper_text(tp));
    crate::text::lemma_trim_ascii(pattern);
    lemma_lower_of_upper(tp);
}


/// `a` directly followed by `b` occurs somewhere in `s`.
pub open spec fn has_pair(s: Seq<char>, a: char, b: char) -> bool {
    exists|i: int| 0 <= i < s.len() - 1 && #[trigger] s[i] == a && s[i + 1] == b
}

proof fn lemma_strip_code_first(s: Seq<char>, c: char)
    requires
        s.len() > 0,
        s[0] != '%',
    ensures
        strip_code(s, c).len() > 0,
        strip_code(s, c)[0] == s[0],
{
}

/// One pass of code removal on text without `%%` leaves no `%%`, no `%c`,
/// and no `%d` that was not there before.
proof fn lemma_strip_code_pairs(s: Seq<char>, c: char, d: char)
    requires
        !has_pair(s, '%', '%'),
        d == '%' || d == c || !has_pair(s, '%', d),
    ensures
        !has_pair(strip_code(s, c), '%', d),
    decreases s.len(),
{
    if s.len() == 0 {
    } else if s.len() >= 2 && s[0] == '%' && s[1] == c {
        let t = s.skip(2);
        assert(!has_pair(t, '%', '%')) by {
            if has_pair(t, '%', '%') {
                let i = choose|i: int| 0 <= i < t.len() - 1 && #[trigger] t[i] == '%' && t[i + 1] == '%';
                assert(s[i + 2] == '%' && s[i + 3] == '%');
            }
        }
        if d != '%' && d != c {
            assert(!has_pair(t, '%', d)) by {
                if has_pair(t, '%', d) {
                    let i = choose|i: int| 0 <= i < t.len() - 1 && #[trigger] t[i] == '%' && t[i + 1] == d;
                    assert(s[i + 2] == '%' && s[i + 3] == d);
                }
            }
        }
        lemma_strip_code_pairs(t, c, d);
    } else {
        let rest = s.drop_first();
        assert(!has_pair(rest, '%', '%')) by {
            if has_pair(rest, '%', '%') {
                let i = choose|i: int| 0 <= i < rest.len() - 1 && #[trigger] rest[i] == '%' && rest[i + 1] == '%';
                assert(s[i + 1] == '%' && s[i + 2] == '%');
            }
        }
        if d != '%' && d != c {
            assert(!has_pair(rest, '%', d)) by {
                if has_pair(rest, '%', d) {
                    let i = choose|i: int| 0 <= i < rest.len() - 1 && #[trigger] rest[i] == '%' && rest[i + 1] == d;
                    assert(s[i + 1] == '%' && s[i + 2] == d);
                }
            }
        }
        lemma_strip_code_pairs(rest, c, d);
        let r = strip_code(rest, c);
        let out = seq![s[0]] + r;
        assert(strip_code(s, c) == out);
        if has_pair(out, '%', d) {
            let i = choose|i: int| 0 <= i < out.len() - 1 && #[trigger] out[i] == '%' && out[i + 1] == d;
            if i == 0 {
                // `s` starts with `%` but not with `%c` or `%%`
                assert(s.len() >= 2) by {
                    assert(r.len() > 0);
                }
                assert(s[1] != '%' && s[1] != c);
                assert(rest[0] == s[1]);
                lemma_strip_code_first(rest, c);
                assert(out[1] == s[1]);
                if d != '%' && d != c {
                    assert(s[0] == '%' && s[1] == d);
                    assert(has_pair(s, '%', d));
                }
            } else {
                assert(r[i - 1] == '%' && r[i] == d);
                assert(has_pair(r, '%', d));
            }
        }
    }
}

/// Code removal leaves text without `%c` unchanged.
proof fn lemma_strip_code_none(s: Seq<char>, c: char)
    requires
        !has_pair(s, '%', c),
    ensures
        strip_code(s, c) == s,
    decreases s.len(),
{
    if s.len() > 0 {
        if s.len() >= 2 && s[0] == '%' && s[1] == c {
            assert(has_pair(s, '%', c));
        }
        let rest = s.drop_first();
        assert(!has_pair(rest, '%', c)) by {
            if has_pair(rest, '%', c) {
                let i = choose|i: int| 0 <= i < rest.len() - 1 && #[trigger] rest[i] == '%' && rest[i + 1] == c;
                assert(s[i + 1] == '%' && s[i + 2] == c);
            }
        }
        lemma_strip_code_none(rest, c);
        assert(seq![s[0]] + rest =~= s);
    }
}

proof fn lemma_strip_codes_pairs(s: Seq<char>, codes: Seq<char>, d: char)
    requires
        !has_pair(s, '%', '%'),
        d == '%' || codes.contains(d) || !has_pair(s, '%', d),
    ensures
        !has_pair(strip_codes(s, codes), '%', d),
    decreases codes.len(),
{
    if codes.len() > 0 {
        let s2 = strip_code(s, codes[0]);
        lemma_strip_code_pairs(s, codes[0], '%');
        if d == codes[0] || d == '%' || !has_pair(s, '%', d) {
            lemma_strip_code_pairs(s, codes[0], d);
        } else {
            let k = choose|k: int| 0 <= k < codes.len() && codes[k] == d;
            assert(codes.drop_first()[k - 1] == d);
        }
        lemma_strip_codes_pairs(s2, codes.drop_first(), d);
    }
}

pub proof fn lemma_strip_codes_none(s: Seq<char>, codes: Seq<char>)
    requires
        forall|k: int| 0 <= k < codes.len() ==> !has_pair(s, '%', #[trigger] codes[k]),
    ensures
        strip_codes(s, codes) == s,
    decreases codes.len(),
{
    if codes.len() > 0 {
        lemma_strip_code_none(s, codes[0]);
        assert forall|k: int| 0 <= k < codes.drop_first().len() implies !has_pair(
            s,
            '%',
            #[trigger] codes.drop_first()[k],
        ) by {
            assert(codes.drop_first()[k] == codes[k + 1]);
        }
        lemma_strip_codes_none(s, codes.drop_first());
    }
}

proof fn lemma_trim_start_first(s: Seq<char>)
    ensures
        trim_start(s).len() > 0 ==> !is_white_space(trim_start(s)[0]),
    decreases s.len(),
{
    if s.len() > 0 && is_white_space(s[0]) {
        lemma_trim_start_first(s.drop_first());
    }
}

proof fn lemma_trim_end_last(s: Seq<char>)
    ensures
        trim_end(s).len() > 0 ==> !is_white_space(trim_end(s).last()),
    decreases s.len(),
{
    if s.len() > 0 && is_white_space(s.last()) {
        lemma_trim_end_last(s.drop_last());
    }
}

/// Trimming twice is trimming once.
proof fn lemma_trim_idempotent(s: Seq<char>)
    ensures
        trim(trim(s)) == trim(s),
{
    let u = trim_start(s);
    let t = trim(s);
    lemma_trim_start_first(s);
    lemma_trim_end_last(u);
    lemma_trim_end_is_prefix(u);
    let k = choose|k: int| 0 <= k <= u.len() && trim_end(u) == u.take(k);
    if t.len() > 0 {
        assert(t[0] == u[0]);
        assert(trim_start(t) == t);
        assert(trim_end(t) == t);
    } else {
        assert(trim_start(t) == t);
    }
}

/// Cleaning an Exec value that holds no `%%` a second time changes nothing.
pub proof fn law_clean_exec_idempotent(exec: Seq<char>)
    requires
        !has_pair(exec, '%', '%'),
    ensures
        cleaned_exec(cleaned_exec(exec)) == cleaned_exec(exec),
{
    let y = strip_codes(exec, field_codes());
    let t = trim(y);
    lemma_trim_is_inner(y);
    let (a, b) = choose|a: int, b: int| 0 <= a <= b <= y.len() && t == y.subrange(a, b);
    assert forall|k: int| 0 <= k < field_codes().len() implies !has_pair(
        t,
        '%',
        #[trigger] field_codes()[k],
    ) by {
        let d = field_codes()[k];
        assert(field_codes().contains(d));
        lemma_strip_codes_pairs(exec, field_codes(), d);
        if has_pair(t, '%', d) {
            let i = choose|i: int| 0 <= i < t.len() - 1 && #[trigger] t[i] == '%' && t[i + 1] == d;
            assert(y[a + i] == '%' && y[a + i + 1] == d);
            assert(has_pair(y, '%', d));
        }
    }
    lemma_strip_codes_none(t, field_codes());
    lemma_trim_idempotent(y);
}


/// Choosing a sub-view shows exactly that view and changes nothing else:
/// the popup, the configuration, the applications, the pattern field and the
/// fingerprint stay, and nothing is left to do.
pub proof fn law_set_view_shows_that_view(m: ModelView, v: PopupView)
    ensures
        step(m, Message::SetView(v)).0.popup_view == v,
        step(m, Message::SetView(v)).0.popup == m.popup,
        step(m, Message::SetView(v)).0.config == m.config,
        step(m, Message::SetView(v)).0.apps == m.apps,
        step(m, Message::SetView(v)).0.hidden_app_input == m.hidden_app_input,
        step(m, Message::SetView(v)).0.apps_stamp == m.apps_stamp,
        step(m, Message::SetView(v)).1 == no_effects(),
        step(step(m, Message::SetView(PopupView::Settings)).0, Message::SetView(v)).0.popup_view
            == v,
{
}

/// The grid width is the columns' tiles and the gaps between columns: it
/// does not depend on the row spacing, the cell height, the icon size or the
/// labels; one more pixel of column spacing widens it by one pixel per gap
/// (columns - 1), and one more pixel of cell width by one pixel per column.
/// With one column there is no gap, so the column spacing does not count.
pub proof fn law_grid_width_counts_columns_and_gaps(c: ConfigView, other: ConfigView)
    requires
        other.cell_width == c.cell_width,
        other.col_spacing == c.col_spacing,
        other.min_cols == c.min_cols,
        other.max_cols == c.max_cols,
    ensures
        grid_width(other) == grid_width(c),
        c.col_spacing < u32::MAX ==> grid_width(ConfigView { col_spacing: (c.col_spacing + 1) as u32, ..c })
            == grid_width(c) + columns(c) - 1,
        c.cell_width < u32::MAX ==> grid_width(ConfigView { cell_width: (c.cell_width + 1) as u32, ..c })
            == grid_width(c) + columns(c),
        columns(c) == 1 ==> grid_width(c) == c.cell_width + 8 + 16,
        grid_width(ConfigView { col_spacing: 0, ..c }) == columns(c) * (c.cell_width + 8) + 16,
{
    let k = columns(c);
    assert(k * ((c.cell_width + 1) + 8) == k * (c.cell_width + 8) + k) by (nonlinear_arith);
    assert((k - 1) * (c.col_spacing + 1) == (k - 1) * c.col_spacing + (k - 1)) by (nonlinear_arith);
    assert((k - 1) * 0 == 0) by (nonlinear_arith);
    if k == 1 {
        assert(k * (c.cell_width + 8) == c.cell_width + 8) by (nonlinear_arith)
            requires
                k == 1,
        ;
        assert((k - 1) * c.col_spacing == 0) by (nonlinear_arith)
            requires
                k == 1,
        ;
    }
}

/// A configuration from the settings service replaces the current one and
/// reloads the application list exactly when its hidden-app patterns differ
/// from the current ones: in number, or in some pattern at some position.
/// It is not stored again.
pub proof fn law_update_config_reloads_when_patterns_differ(m: ModelView, c: crate::config::Config)
    ensures
        step(m, Message::UpdateConfig(c)).0.config == c@,
        step(m, Message::UpdateConfig(c)).1.reload_apps == (c@.hidden_apps.len()
            != m.config.hidden_apps.len() || exists|i: int|
            0 <= i < c@.hidden_apps.len() && #[trigger] c@.hidden_apps[i] != m.config.hidden_apps[i]),
        !step(m, Message::UpdateConfig(c)).1.save_config,
{
    let a = c@.hidden_apps;
    let b = m.config.hidden_apps;
    if a.len() == b.len() && !(exists|i: int| 0 <= i < a.len() && #[trigger] a[i] != b[i]) {
        assert(a =~= b);
    }
}


/// `v` kept within `lo..=hi`: itself inside, the nearest bound outside.
pub open spec fn within(v: u32, lo: u32, hi: u32, r: u32) -> bool {
    &&& lo <= r <= hi
    &&& lo <= v <= hi ==> r == v
    &&& v < lo ==> r == lo
    &&& v > hi ==> r == hi
}

/// Each setting takes the value asked for when it lies in the range the
/// settings page offers (icon 16-96, cell width 48-128, cell height 48-256,
/// spacings 0-64, popup height 200-900, columns 1-8, maximum columns 0-8),
/// and the nearest end of that range otherwise; the other settings stay, and
/// the configuration is stored.
pub proof fn law_setters_keep_offered_ranges(m: ModelView, v: u32)
    ensures
        within(v, 16, 96, step(m, Message::SetIconSize(v)).0.config.icon_size),
        within(v, 48, 128, step(m, Message::SetCellWidth(v)).0.config.cell_width),
        within(v, 48, 256, step(m, Message::SetCellHeight(v)).0.config.cell_height),
        within(v, 0, 64, step(m, Message::SetColSpacing(v)).0.config.col_spacing),
        within(v, 0, 64, step(m, Message::SetRowSpacing(v)).0.config.row_spacing),
        within(v, 200, 900, step(m, Message::SetPopupHeight(v)).0.config.popup_height),
        within(v, 1, 8, step(m, Message::SetMinCols(v)).0.config.min_cols),
        within(v, 0, 8, step(m, Message::SetMaxCols(v)).0.config.max_cols),
        step(m, Message::SetIconSize(v)).0.config.cell_width == m.config.cell_width,
        step(m, Message::SetCellWidth(v)).0.config.icon_size == m.config.icon_size,
        step(m, Message::SetColSpacing(v)).0.config.row_spacing == m.config.row_spacing,
        step(m, Message::SetRowSpacing(v)).0.config.col_spacing == m.config.col_spacing,
        step(m, Message::SetMinCols(v)).0.config.max_cols == m.config.max_cols,
        step(m, Message::SetMaxCols(v)).0.config.min_cols == m.config.min_cols,
        step(m, Message::SetIconSize(v)).1.save_config,
        step(m, Message::SetCellWidth(v)).1.save_config,
        step(m, Message::SetCellHeight(v)).1.save_config,
        step(m, Message::SetColSpacing(v)).1.save_config,
        step(m, Message::SetRowSpacing(v)).1.save_config,
        step(m, Message::SetPopupHeight(v)).1.save_config,
        step(m, Message::SetMinCols(v)).1.save_config,
        step(m, Message::SetMaxCols(v)).1.save_config,
{
}

/// Launching the app at `index` starts exactly that app's command, and
/// nothing when there is no app at that index.
pub proof fn law_launch_starts_that_app(m: ModelView, index: usize)
    ensures
        index < m.apps.len() ==> step(m, Message::LaunchApp(index)).1.launch == Some(
            m.apps[index as int].exec_clean,
        ),
        index >= m.apps.len() ==> step(m, Message::LaunchApp(index)).1.launch is None,
        step(m, Message::LaunchApp(index)).0.apps == m.apps,
        step(m, Message::LaunchApp(index)).0.config == m.config,
{
}

} // verus!
