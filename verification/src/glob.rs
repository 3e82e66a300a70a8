use vstd::prelude::*;

use crate::text::{
    ascii_lower_text, chars_of, is_ascii_text, lemma_trim_ascii, lowercase, string_of, to_lowercase, trim,
    trim_chars,
};

verus! {

/// Whether `name` matches the glob `pattern`, in which `*` stands for any
/// sequence of characters (possibly empty) and every other character stands
/// for itself. The whole name must be covered.
pub open spec fn glob(name: Seq<char>, pattern: Seq<char>) -> bool
    decreases name.len() + pattern.len(),
{
    if pattern.len() == 0 {
        name.len() == 0
    } else if pattern[0] == '*' {
        glob(name, pattern.drop_first()) || (name.len() > 0 && glob(name.drop_first(), pattern))
    } else {
        name.len() > 0 && name[0] == pattern[0] && glob(name.drop_first(), pattern.drop_first())
    }
}

/// `seg` occurs in `s` starting at index `i`.
pub open spec fn occurs_at(s: Seq<char>, seg: Seq<char>, i: int) -> bool {
    0 <= i && i + seg.len() <= s.len() && s.subrange(i, i + seg.len()) == seg
}

/// A literal piece (no `*`) at the front of a pattern must be matched
/// character for character.
pub proof fn lemma_glob_literal(n: Seq<char>, s: Seq<char>, q: Seq<char>)
    requires
        !s.contains('*'),
    ensures
        glob(n, s + q) == (s.len() <= n.len() && n.take(s.len() as int) == s && glob(
            n.skip(s.len() as int),
            q,
        )),
    decreases s.len(),
{
    if s.len() == 0 {
        assert(s + q =~= q);
        assert(n.skip(0) =~= n);
        assert(n.take(0) =~= s);
    } else {
        let sq = s + q;
        assert(sq[0] == s[0]);
        assert(sq.drop_first() =~= s.drop_first() + q);
        assert(!s.drop_first().contains('*')) by {
            if s.drop_first().contains('*') {
                let k = choose|k: int| 0 <= k < s.drop_first().len() && s.drop_first()[k] == '*';
                assert(s[k + 1] == '*');
            }
        }
        assert(s[0] != '*') by {
            if s[0] == '*' {
                assert(s.contains('*'));
            }
        }
        if n.len() > 0 {
            lemma_glob_literal(n.drop_first(), s.drop_first(), q);
            if s.len() <= n.len() {
                assert(n.drop_first().skip(s.len() - 1) =~= n.skip(s.len() as int));
                if n.take(s.len() as int) == s {
                    assert(n.drop_first().take(s.len() - 1) =~= s.drop_first());
                }
                if n[0] == s[0] && n.drop_first().take(s.len() - 1) == s.drop_first() {
                    assert forall|j: int| 0 <= j < s.len() implies #[trigger] n.take(s.len() as int)[j] == s[j] by {
                        if j > 0 {
                            assert(n.drop_first().take(s.len() - 1)[j - 1] == s.drop_first()[j - 1]);
                        }
                    }
                    assert(n.take(s.len() as int) =~= s);
                }
            }
        }
    }
}

/// A leading `*` absorbs some prefix of the name.
pub proof fn lemma_glob_star(n: Seq<char>, q: Seq<char>)
    ensures
        glob(n, seq!['*'] + q) == exists|k: int| 0 <= k <= n.len() && #[trigger] glob(n.skip(k), q),
    decreases n.len(),
{
    let sq = seq!['*'] + q;
    assert(sq.drop_first() =~= q);
    assert(n.skip(0) =~= n);
    if glob(n, sq) {
        if glob(n, q) {
            assert(glob(n.skip(0), q));
        } else {
            lemma_glob_star(n.drop_first(), q);
            let k = choose|k: int| 0 <= k <= n.drop_first().len() && #[trigger] glob(n.drop_first().skip(k), q);
            assert(n.drop_first().skip(k) =~= n.skip(k + 1));
            assert(glob(n.skip(k + 1), q));
        }
    }
    if exists|k: int| 0 <= k <= n.len() && #[trigger] glob(n.skip(k), q) {
        let k = choose|k: int| 0 <= k <= n.len() && #[trigger] glob(n.skip(k), q);
        if k > 0 {
            assert(n.drop_first().skip(k - 1) =~= n.skip(k));
            lemma_glob_star(n.drop_first(), q);
            assert(glob(n.drop_first(), sq));
        }
    }
}

/// A leading `*` can absorb more: dropping fewer characters keeps a match.
pub proof fn lemma_glob_star_monotone(n: Seq<char>, q: Seq<char>, a: int, b: int)
    requires
        0 <= b <= a <= n.len(),
        glob(n.skip(a), seq!['*'] + q),
    ensures
        glob(n.skip(b), seq!['*'] + q),
{
    lemma_glob_star(n.skip(a), q);
    let k = choose|k: int| 0 <= k <= n.skip(a).len() && #[trigger] glob(n.skip(a).skip(k), q);
    assert(n.skip(a).skip(k) =~= n.skip(b).skip(a - b + k));
    lemma_glob_star(n.skip(b), q);
}

/// Under a leading `*`, a literal piece followed by another `*` may be matched
/// at its leftmost occurrence.
pub proof fn lemma_glob_leftmost(n: Seq<char>, s: Seq<char>, r: Seq<char>, i: int)
    requires
        !s.contains('*'),
        occurs_at(n, s, i),
        forall|j: int| 0 <= j < i ==> !occurs_at(n, s, j),
    ensures
        glob(n, seq!['*'] + (s + (seq!['*'] + r))) == glob(
            n.skip(i + s.len()),
            seq!['*'] + r,
        ),
{
    let tail = seq!['*'] + r;
    lemma_glob_star(n, s + tail);
    if glob(n, seq!['*'] + (s + tail)) {
        let k = choose|k: int| 0 <= k <= n.len() && #[trigger] glob(n.skip(k), s + tail);
        lemma_glob_literal(n.skip(k), s, tail);
        assert(n.skip(k).take(s.len() as int) =~= n.subrange(k, k + s.len()));
        assert(occurs_at(n, s, k));
        assert(n.skip(k).skip(s.len() as int) =~= n.skip(k + s.len()));
        lemma_glob_star_monotone(n, r, k + s.len(), i + s.len());
    }
    if glob(n.skip(i + s.len()), tail) {
        lemma_glob_literal(n.skip(i), s, tail);
        assert(n.skip(i).take(s.len() as int) =~= n.subrange(i, i + s.len()));
        assert(n.skip(i).skip(s.len() as int) =~= n.skip(i + s.len()));
        assert(glob(n.skip(i), s + tail));
    }
}

/// Under a leading `*`, a literal piece that never occurs cannot be matched.
pub proof fn lemma_glob_absent(n: Seq<char>, s: Seq<char>, r: Seq<char>)
    requires
        !s.contains('*'),
        forall|j: int| 0 <= j ==> !occurs_at(n, s, j),
    ensures
        !glob(n, seq!['*'] + (s + r)),
{
    lemma_glob_star(n, s + r);
    if glob(n, seq!['*'] + (s + r)) {
        let k = choose|k: int| 0 <= k <= n.len() && #[trigger] glob(n.skip(k), s + r);
        lemma_glob_literal(n.skip(k), s, r);
        assert(n.skip(k).take(s.len() as int) =~= n.subrange(k, k + s.len()));
        assert(occurs_at(n, s, k));
    }
}

/// Under a leading `*`, a final literal piece must end the name.
pub proof fn lemma_glob_last(n: Seq<char>, s: Seq<char>)
    requires
        !s.contains('*'),
    ensures
        glob(n, seq!['*'] + s) == (s.len() <= n.len() && n.skip(n.len() - s.len()) == s),
{
    let e = Seq::<char>::empty();
    assert(s + e =~= s);
    lemma_glob_star(n, s);
    if glob(n, seq!['*'] + s) {
        let k = choose|k: int| 0 <= k <= n.len() && #[trigger] glob(n.skip(k), s);
        lemma_glob_literal(n.skip(k), s, e);
        assert(n.skip(k).skip(s.len() as int).len() == 0);
        assert(n.skip(k).take(s.len() as int) =~= n.skip(k));
        assert(k == n.len() - s.len());
    }
    if s.len() <= n.len() && n.skip(n.len() - s.len()) == s {
        let k = n.len() - s.len();
        lemma_glob_literal(n.skip(k), s, e);
        assert(n.skip(k).take(s.len() as int) =~= n.skip(k));
        assert(glob(n.skip(k).skip(s.len() as int), e));
        assert(glob(n.skip(k), s));
    }
}


/// Index of the first `c` in `s` at or after `from`.
fn find_char(s: &Vec<char>, c: char, from: usize) -> (r: Option<usize>)
    requires
        from <= s.len(),
    ensures
        match r {
            Some(i) => from <= i < s.len() && s@[i as int] == c && forall|j: int|
                from <= j < i ==> s@[j] != c,
            None => forall|j: int| from <= j < s.len() ==> s@[j] != c,
        },
{
    let mut i = from;
    while i < s.len()
        invariant
            from <= i <= s.len(),
            forall|j: int| from <= j < i ==> s@[j] != c,
        decreases s.len() - i,
    {
        if s[i] == c {
            return Some(i);
        }
        i = i + 1;
    }
    None
}

/// Whether `n[i..i + (b - a)]` equals `p[a..b]`.
fn same_at(n: &Vec<char>, i: usize, p: &Vec<char>, a: usize, b: usize) -> (r: bool)
    requires
        a <= b <= p.len(),
        i + (b - a) <= n.len(),
    ensures
        r == (n@.subrange(i as int, i + (b - a)) == p@.subrange(a as int, b as int)),
{
    let ghost ns = n@.subrange(i as int, i + (b - a));
    let ghost pp = p@.subrange(a as int, b as int);
    let mut k: usize = 0;
    while k < b - a
        invariant
            a <= b <= p.len(),
            i + (b - a) <= n.len(),
            k <= b - a,
            ns == n@.subrange(i as int, i + (b - a)),
            pp == p@.subrange(a as int, b as int),
            forall|j: int| 0 <= j < k ==> #[trigger] ns[j] == pp[j],
        decreases b - a - k,
    {
        if n[i + k] != p[a + k] {
            assert(ns[k as int] != pp[k as int]);
            return false;
        }
        k = k + 1;
    }
    assert(ns =~= pp);
    true
}

/// Leftmost occurrence, at or after `from`, of the piece `p[a..b]` in `n`.
fn find_piece(n: &Vec<char>, from: usize, p: &Vec<char>, a: usize, b: usize) -> (r: Option<usize>)
    requires
        from <= n.len(),
        a <= b <= p.len(),
    ensures
        match r {
            Some(i) => from <= i && occurs_at(n@, p@.subrange(a as int, b as int), i as int)
                && forall|j: int| from <= j < i ==> !occurs_at(n@, p@.subrange(a as int, b as int), j),
            None => forall|j: int| from <= j ==> !occurs_at(n@, p@.subrange(a as int, b as int), j),
        },
{
    let ghost seg = p@.subrange(a as int, b as int);
    let len = b - a;
    if len > n.len() - from {
        return None;
    }
    let last = n.len() - len;
    let mut i = from;
    loop
        invariant
            from <= i <= last,
            last + len == n.len(),
            a <= b <= p.len(),
            len == b - a,
            seg == p@.subrange(a as int, b as int),
            forall|j: int| from <= j < i ==> !occurs_at(n@, seg, j),
        decreases last - i,
    {
        if same_at(n, i, p, a, b) {
            return Some(i);
        }
        if i == last {
            return None;
        }
        i = i + 1;
    }
}

/// Whether `name` matches the glob `pattern` (see `glob`).
fn glob_matches_chars(n: &Vec<char>, p: &Vec<char>) -> (b: bool)
    ensures
        b == glob(n@, p@),
{
    let star = find_char(p, '*', 0);
    let empty = Ghost(Seq::<char>::empty());
    match star {
        None => {
            proof {
                assert(p@ + empty@ =~= p@);
                lemma_glob_literal(n@, p@, empty@);
            }
            if p.len() != n.len() {
                return false;
            }
            let same = same_at(n, 0, p, 0, p.len());
            proof {
                assert(n@.subrange(0, p.len() as int) =~= n@);
                assert(p@.subrange(0, p.len() as int) =~= p@);
                assert(n@.take(p.len() as int) =~= n@);
            }
            same
        },
        Some(st) => {
            proof {
                let pre = p@.take(st as int);
                assert(!pre.contains('*')) by {
                    if pre.contains('*') {
                        let k = choose|k: int| 0 <= k < pre.len() && pre[k] == '*';
                        assert(p@[k] == '*');
                    }
                }
                assert(pre + p@.skip(st as int) =~= p@);
                lemma_glob_literal(n@, pre, p@.skip(st as int));
                assert(p@.subrange(0, st as int) =~= pre);
            }
            if st > n.len() {
                return false;
            }
            if !same_at(n, 0, p, 0, st) {
                proof {
                    assert(n@.subrange(0, st as int) =~= n@.take(st as int));
                }
                return false;
            }
            proof {
                assert(n@.subrange(0, st as int) =~= n@.take(st as int));
            }
            let mut pos: usize = st;
            let mut ps: usize = st;
            loop
                invariant
                    ps < p.len(),
                    p@[ps as int] == '*',
                    pos <= n.len(),
                    glob(n@, p@) == glob(n@.skip(pos as int), p@.skip(ps as int)),
                decreases p.len() - ps,
            {
                let ghost m = n@.skip(pos as int);
                let next = find_char(p, '*', ps + 1);
                match next {
                    None => {
                        let seg_len = p.len() - ps - 1;
                        proof {
                            let seg = p@.skip(ps + 1);
                            assert(!seg.contains('*')) by {
                                if seg.contains('*') {
                                    let k = choose|k: int| 0 <= k < seg.len() && seg[k] == '*';
                                    assert(p@[ps + 1 + k] == '*');
                                }
                            }
                            assert(p@.skip(ps as int) =~= seq!['*'] + seg);
                            lemma_glob_last(m, seg);
                            assert(p@.subrange(ps + 1, p.len() as int) =~= seg);
                        }
                        if n.len() - pos < seg_len {
                            return false;
                        }
                        let r = same_at(n, n.len() - seg_len, p, ps + 1, p.len());
                        proof {
                            assert(m.skip(m.len() - seg_len) =~= n@.subrange(
                                n.len() - seg_len,
                                n.len() as int,
                            ));
                        }
                        return r;
                    },
                    Some(nx) => {
                        let ghost seg = p@.subrange(ps + 1, nx as int);
                        let ghost rest = p@.skip(nx + 1);
                        proof {
                            assert(!seg.contains('*')) by {
                                if seg.contains('*') {
                                    let k = choose|k: int| 0 <= k < seg.len() && seg[k] == '*';
                                    assert(p@[ps + 1 + k] == '*');
                                }
                            }
                            assert(p@.skip(ps as int) =~= seq!['*'] + (seg + (seq!['*'] + rest)));
                            assert(p@.skip(nx as int) =~= seq!['*'] + rest);
                        }
                        if nx == ps + 1 {
                            proof {
                                assert(occurs_at(m, seg, 0)) by {
                                    assert(m.subrange(0, 0) =~= seg);
                                }
                                lemma_glob_leftmost(m, seg, rest, 0);
                                assert(m.skip(0) =~= m);
                            }
                            ps = nx;
                        } else {
                            let found = find_piece(n, pos, p, ps + 1, nx);
                            match found {
                                None => {
                                    proof {
                                        assert forall|j: int| 0 <= j implies !occurs_at(m, seg, j) by {
                                            if occurs_at(m, seg, j) {
                                                assert(m.subrange(j, j + seg.len()) =~= n@.subrange(
                                                    pos + j,
                                                    pos + j + seg.len(),
                                                ));
                                                assert(occurs_at(n@, seg, pos + j));
                                            }
                                        }
                                        lemma_glob_absent(m, seg, seq!['*'] + rest);
                                    }
                                    return false;
                                },
                                Some(i) => {
                                    proof {
                                        let d = i - pos;
                                        assert(m.subrange(d, d + seg.len()) =~= n@.subrange(
                                            i as int,
                                            i + seg.len(),
                                        ));
                                        assert forall|j: int| 0 <= j < d implies !occurs_at(m, seg, j) by {
                                            if occurs_at(m, seg, j) {
                                                assert(m.subrange(j, j + seg.len()) =~= n@.subrange(
                                                    pos + j,
                                                    pos + j + seg.len(),
                                                ));
                                                assert(occurs_at(n@, seg, pos + j));
                                            }
                                        }
                                        lemma_glob_leftmost(m, seg, rest, d);
                                        assert(m.skip(d + seg.len()) =~= n@.skip(i + seg.len()));
                                    }
                                    pos = i + (nx - ps - 1);
                                    ps = nx;
                                },
                            }
                        }
                    },
                }
            }
        },
    }
}

/// Whether `name` matches the glob `pattern`, exactly and case-sensitively:
/// `*` stands for any run of characters, every other character for itself.
pub fn glob_matches(name: &str, pattern: &str) -> (b: bool)
    ensures
        b == glob(name@, pattern@),
{
    let n = chars_of(name);
    let p = chars_of(pattern);
    glob_matches_chars(&n, &p)
}

/// Whether an application `name` is hidden by `pattern`: the pattern, with
/// surrounding white space removed, compared case-insensitively as a glob.
/// A pattern that is empty (after trimming) hides nothing.
pub open spec fn hides(pattern: Seq<char>, name: Seq<char>) -> bool {
    let p = lowercase(trim(pattern));
    p.len() > 0 && glob(lowercase(name), p)
}

/// `hides` for ASCII text, where lower-casing maps `A`-`Z` to `a`-`z` only.
pub open spec fn ascii_hides(pattern: Seq<char>, name: Seq<char>) -> bool {
    let p = ascii_lower_text(trim(pattern));
    p.len() > 0 && glob(ascii_lower_text(name), p)
}

/// A non-empty pattern of stars only matches every name.
pub proof fn lemma_glob_all_stars(n: Seq<char>, p: Seq<char>)
    requires
        p.len() > 0,
        forall|i: int| 0 <= i < p.len() ==> p[i] == '*',
    ensures
        glob(n, p),
    decreases p.len(),
{
    if p.len() == 1 {
        let e = Seq::<char>::empty();
        assert(p =~= seq!['*'] + e);
        lemma_glob_star(n, e);
        assert(n.skip(n.len() as int) =~= e);
        assert(glob(n.skip(n.len() as int), e));
    } else {
        lemma_glob_all_stars(n, p.drop_first());
    }
}

/// Case-insensitive glob match where `*` is the only wildcard (matches any
/// sequence). A pattern that is blank hides nothing, one made of stars only
/// hides everything, and for ASCII text the result is decided by the ASCII
/// lower-case forms.
pub fn matches_hidden_pattern(name: &str, pattern: &str) -> (b: bool)
    ensures
        b == hides(pattern@, name@),
        trim(pattern@).len() == 0 ==> !b,
        trim(pattern@).len() > 0 && (forall|i: int|
            0 <= i < trim(pattern@).len() ==> trim(pattern@)[i] == '*') ==> b,
        is_ascii_text(name@) && is_ascii_text(pattern@) ==> b == ascii_hides(pattern@, name@),
{
    let raw = chars_of(pattern);
    let trimmed = trim_chars(&raw);
    let trimmed_str = string_of(&trimmed);
    let ghost t = trimmed@;
    let p_lower = to_lowercase(trimmed_str.as_str());
    proof {
        if is_ascii_text(pattern@) {
            lemma_trim_ascii(pattern@);
        }
        if t.len() > 0 && (forall|i: int| 0 <= i < t.len() ==> t[i] == '*') {
            assert(is_ascii_text(t));
            assert(p_lower@ =~= t);
        }
    }
    if p_lower.as_str().unicode_len() == 0 {
        return false;
    }
    let n_lower = to_lowercase(name);
    let b = glob_matches(n_lower.as_str(), p_lower.as_str());
    proof {
        if t.len() > 0 && (forall|i: int| 0 <= i < t.len() ==> t[i] == '*') {
            lemma_glob_all_stars(n_lower@, p_lower@);
        }
    }
    b
}

} // verus!
