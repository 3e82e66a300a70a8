use vstd::prelude::*;

use crate::desktop::{split_chars, split_on};
use crate::text::{chars_of, string_of};

verus! {

/// `base` with the relative path `rel` appended, as `PathBuf::push` does:
/// a `/` goes between them unless `base` is empty or already ends in one.
pub open spec fn join_path(base: Seq<char>, rel: Seq<char>) -> Seq<char> {
    if base.len() == 0 || base.last() == '/' {
        base + rel
    } else {
        base + seq!['/'] + rel
    }
}

/// The data directories searched when `XDG_DATA_DIRS` is unset or empty.
pub open spec fn default_data_dirs() -> Seq<char> {
    "/usr/local/share:/usr/share"@
}

/// The directories scanned for .desktop files, following the XDG base
/// directory rules, under which an empty variable counts as unset: the
/// user's own (`$XDG_DATA_HOME/applications`, else
/// `$HOME/.local/share/applications`, else none), then `applications` under
/// each `:`-separated entry of `$XDG_DATA_DIRS` (or of its default).
pub open spec fn search_dirs(
    xdg_data_home: Option<Seq<char>>,
    home: Option<Seq<char>>,
    xdg_data_dirs: Option<Seq<char>>,
) -> Seq<Seq<char>> {
    let own = if xdg_data_home matches Some(d) && d.len() > 0 {
        seq![join_path(xdg_data_home->0, "applications"@)]
    } else {
        match home {
            Some(h) => seq![join_path(h, ".local/share/applications"@)],
            None => Seq::empty(),
        }
    };
    let data = if xdg_data_dirs matches Some(d) && d.len() > 0 {
        xdg_data_dirs->0
    } else {
        default_data_dirs()
    };
    own + split_on(data, ':').map_values(|d: Seq<char>| join_path(d, "applications"@))
}

/// `base` joined with `rel` (see `join_path`).
fn join_chars(base: &Vec<char>, rel: &str) -> (r: Vec<char>)
    ensures
        r@ == join_path(base@, rel@),
{
    let tail = chars_of(rel);
    let mut r: Vec<char> = Vec::new();
    let mut i: usize = 0;
    while i < base.len()
        invariant
            i <= base.len(),
            r@ == base@.take(i as int),
        decreases base.len() - i,
    {
        r.push(base[i]);
        assert(base@.take(i + 1) =~= base@.take(i as int).push(base@[i as int]));
        i = i + 1;
    }
    assert(base@.take(base.len() as int) =~= base@);
    if base.len() > 0 && base[base.len() - 1] != '/' {
        r.push('/');
    }
    let ghost head = r@;
    let mut k: usize = 0;
    while k < tail.len()
        invariant
            k <= tail.len(),
            tail@ == rel@,
            r@ == head + tail@.take(k as int),
        decreases tail.len() - k,
    {
        r.push(tail[k]);
        assert(tail@.take(k + 1) =~= tail@.take(k as int).push(tail@[k as int]));
        k = k + 1;
    }
    assert(tail@.take(tail.len() as int) =~= tail@);
    r
}

/// Returns all directories that are scanned for .desktop files, given the
/// values of `XDG_DATA_HOME`, `HOME` and `XDG_DATA_DIRS` (`None` where a
/// variable is unset or not Unicode; an empty XDG variable counts as unset).
pub fn app_search_dirs(
    xdg_data_home: Option<&str>,
    home: Option<&str>,
    xdg_data_dirs: Option<&str>,
) -> (dirs: Vec<String>)
    ensures
        dirs@.map_values(|d: String| d@) == search_dirs(
            match xdg_data_home {
                Some(s) => Some(s@),
                None => None,
            },
            match home {
                Some(s) => Some(s@),
                None => None,
            },
            match xdg_data_dirs {
                Some(s) => Some(s@),
                None => None,
            },
        ),
{
    let mut dirs: Vec<String> = Vec::new();
    let ghost own: Seq<Seq<char>>;
    let data_home = match xdg_data_home {
        Some(d) => chars_of(d),
        None => Vec::new(),
    };
    if data_home.len() > 0 {
        let j = join_chars(&data_home, "applications");
        dirs.push(string_of(&j));
        proof {
            own = seq![join_path(data_home@, "applications"@)];
        }
    } else {
        match home {
            Some(h) => {
                let j = join_chars(&chars_of(h), ".local/share/applications");
                dirs.push(string_of(&j));
                proof {
                    own = seq![join_path(h@, ".local/share/applications"@)];
                }
            },
            None => {
                proof {
                    own = Seq::empty();
                }
            },
        }
    }
    assert(dirs@.map_values(|d: String| d@) =~= own);
    let given = match xdg_data_dirs {
        Some(d) => chars_of(d),
        None => Vec::new(),
    };
    let data = if given.len() > 0 {
        given
    } else {
        chars_of("/usr/local/share:/usr/share")
    };
    let pieces = split_chars(&data, ':');
    let ghost pv = pieces@.map_values(|l: Vec<char>| l@);
    let ghost joined = pv.map_values(|d: Seq<char>| join_path(d, "applications"@));
    let mut i: usize = 0;
    while i < pieces.len()
        invariant
            i <= pieces.len(),
            pv == pieces@.map_values(|l: Vec<char>| l@),
            joined == pv.map_values(|d: Seq<char>| join_path(d, "applications"@)),
            dirs@.map_values(|d: String| d@) == own + joined.take(i as int),
        decreases pieces.len() - i,
    {
        let j = join_chars(&pieces[i], "applications");
        let ghost before = dirs@;
        dirs.push(string_of(&j));
        assert(dirs@.map_values(|d: String| d@) =~= before.map_values(|d: String| d@).push(
            j@,
        ));
        assert(joined.take(i + 1) =~= joined.take(i as int).push(joined[i as int]));
        i = i + 1;
    }
    assert(joined.take(pieces.len() as int) =~= joined);
    dirs
}

/// Fingerprint of the application directories from what was observed of
/// each: its modification time in seconds and its number of entries, all
/// added with wrap-around.
pub open spec fn stamp_of(observed: Seq<(u64, u64)>) -> u64
    decreases observed.len(),
{
    if observed.len() == 0 {
        0
    } else {
        vstd::wrapping::u64_specs::wrapping_add(
            stamp_of(observed.drop_last()),
            vstd::wrapping::u64_specs::wrapping_add(observed.last().0, observed.last().1),
        )
    }
}

/// Computes a cheap fingerprint of the application directories: the sum of
/// each directory's mtime (in seconds) plus its entry count, given as one
/// `(mtime, count)` pair per directory (0 for what could not be read).
///
/// When the observations of one directory change by a total that is not a
/// multiple of 2^64 (for instance, only its time or only its count changes),
/// the fingerprint changes and the app list is reloaded; changes that cancel
/// out go unnoticed.
pub fn app_dirs_stamp(observed: &Vec<(u64, u64)>) -> (stamp: u64)
    ensures
        stamp == stamp_of(observed@),
{
    let mut acc: u64 = 0;
    let mut i: usize = 0;
    assert(observed@.take(0) =~= Seq::<(u64, u64)>::empty());
    while i < observed.len()
        invariant
            i <= observed.len(),
            acc == stamp_of(observed@.take(i as int)),
        decreases observed.len() - i,
    {
        let (mtime, count) = observed[i];
        assert(observed@.take(i + 1).drop_last() =~= observed@.take(i as int));
        acc = acc.wrapping_add(mtime.wrapping_add(count));
        i = i + 1;
    }
    assert(observed@.take(observed.len() as int) =~= observed@);
    acc
}

} // verus!
