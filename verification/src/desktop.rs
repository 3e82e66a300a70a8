use vstd::prelude::*;

use crate::glob::{hides, matches_hidden_pattern};
use crate::text::{chars_of, string_of, trim, trim_chars};

verus! {

/// A single installed application parsed from a .desktop file.
#[derive(Clone, Debug)]
pub struct AppEntry {
    /// Localised display name.
    pub name: String,
    /// Exec string with all %-field codes stripped.
    pub exec_clean: String,
    /// Icon name (theme) or absolute path; None = generic icon.
    pub icon: Option<String>,
}

/// What an `AppEntry` holds, as plain character sequences.
pub struct AppEntryView {
    pub name: Seq<char>,
    pub exec_clean: Seq<char>,
    pub icon: Option<Seq<char>>,
}

pub open spec fn opt_view(o: Option<String>) -> Option<Seq<char>> {
    match o {
        Some(s) => Some(s@),
        None => None,
    }
}

impl View for AppEntry {
    type V = AppEntryView;

    open spec fn view(&self) -> AppEntryView {
        AppEntryView { name: self.name@, exec_clean: self.exec_clean@, icon: opt_view(self.icon) }
    }
}

impl AppEntry {
    /// A copy of this entry with the same name, command and icon.
    pub fn duplicate(&self) -> (r: AppEntry)
        ensures
            r@ == self@,
    {
        let icon = match &self.icon {
            Some(s) => Some(s.clone()),
            None => None,
        };
        AppEntry { name: self.name.clone(), exec_clean: self.exec_clean.clone(), icon }
    }
}

/// `s` with every occurrence of the field code `%code` removed, scanning
/// left to right without rescanning what is left behind (as `str::replace`
/// with an empty replacement does).
pub open spec fn strip_code(s: Seq<char>, code: char) -> Seq<char>
    decreases s.len(),
{
    if s.len() == 0 {
        s
    } else if s.len() >= 2 && s[0] == '%' && s[1] == code {
        strip_code(s.skip(2), code)
    } else {
        seq![s[0]] + strip_code(s.drop_first(), code)
    }
}

/// The field codes of the desktop-entry Exec key that are stripped, in the
/// order in which they are removed.
pub open spec fn field_codes() -> Seq<char> {
    seq!['f', 'F', 'u', 'U', 'd', 'D', 'n', 'N', 'i', 'c', 'k', 'v', 'm']
}

/// `s` after removing the codes in `codes`, one code after the other.
pub open spec fn strip_codes(s: Seq<char>, codes: Seq<char>) -> Seq<char>
    decreases codes.len(),
{
    if codes.len() == 0 {
        s
    } else {
        strip_codes(strip_code(s, codes[0]), codes.drop_first())
    }
}

/// The command line that is launched for a desktop Exec value.
pub open spec fn cleaned_exec(exec: Seq<char>) -> Seq<char> {
    trim(strip_codes(exec, field_codes()))
}

proof fn lemma_strip_code_step(s: Seq<char>, i: int, code: char)
    requires
        0 <= i < s.len(),
    ensures
        (i + 1 < s.len() && s[i] == '%' && s[i + 1] == code) ==> strip_code(s.skip(i), code)
            == strip_code(s.skip(i + 2), code),
        !(i + 1 < s.len() && s[i] == '%' && s[i + 1] == code) ==> strip_code(s.skip(i), code)
            == seq![s[i]] + strip_code(s.skip(i + 1), code),
{
    let t = s.skip(i);
    assert(t[0] == s[i]);
    if i + 1 < s.len() {
        assert(t[1] == s[i + 1]);
    }
    if i + 1 < s.len() {
        assert(t.skip(2) =~= s.skip(i + 2));
    }
    assert(t.drop_first() =~= s.skip(i + 1));
}

/// Removes every `%code` from `s`, left to right.
fn strip_code_chars(s: &Vec<char>, code: char) -> (r: Vec<char>)
    ensures
        r@ == strip_code(s@, code),
{
    let mut out: Vec<char> = Vec::new();
    let mut i: usize = 0;
    assert(s@.skip(0) =~= s@);
    while i < s.len()
        invariant
            i <= s.len(),
            strip_code(s@, code) == out@ + strip_code(s@.skip(i as int), code),
        decreases s.len() - i,
    {
        proof {
            lemma_strip_code_step(s@, i as int, code);
        }
        if i + 1 < s.len() && s[i] == '%' && s[i + 1] == code {
            i = i + 2;
        } else {
            let ghost before = out@;
            out.push(s[i]);
            assert(before + (seq![s@[i as int]] + strip_code(s@.skip(i + 1), code)) =~= out@
                + strip_code(s@.skip(i + 1), code));
            i = i + 1;
        }
    }
    assert(s@.skip(i as int).len() == 0);
    assert(out@ + strip_code(s@.skip(i as int), code) =~= out@);
    out
}

/// Strips all %-field codes from a desktop Exec value.
pub fn clean_exec(exec: &str) -> (r: String)
    ensures
        r@ == cleaned_exec(exec@),
{
    let codes: [char; 13] = ['f', 'F', 'u', 'U', 'd', 'D', 'n', 'N', 'i', 'c', 'k', 'v', 'm'];
    let mut cur = chars_of(exec);
    let mut k: usize = 0;
    assert(codes@ =~= field_codes());
    assert(field_codes().skip(0) =~= field_codes());
    while k < 13
        invariant
            k <= 13,
            codes@ == field_codes(),
            strip_codes(exec@, field_codes()) == strip_codes(cur@, field_codes().skip(k as int)),
        decreases 13 - k,
    {
        let ghost rest = field_codes().skip(k as int);
        assert(rest[0] == codes@[k as int]);
        assert(rest.drop_first() =~= field_codes().skip(k + 1));
        cur = strip_code_chars(&cur, codes[k]);
        k = k + 1;
    }
    assert(field_codes().skip(13) =~= Seq::<char>::empty());
    let t = trim_chars(&cur);
    string_of(&t)
}


/// The pieces of `s` between occurrences of `sep` (as `str::split` with a
/// character gives them: `n` separators make `n + 1` pieces).
pub open spec fn split_on(s: Seq<char>, sep: char) -> Seq<Seq<char>>
    decreases s.len(),
{
    if s.len() == 0 {
        seq![Seq::<char>::empty()]
    } else {
        let prev = split_on(s.drop_last(), sep);
        if s.last() == sep {
            prev.push(Seq::<char>::empty())
        } else {
            prev.update(prev.len() - 1, prev.last().push(s.last()))
        }
    }
}

/// The lines of `s`: the pieces between `'\n'` characters. (`str::lines`
/// drops a final empty piece and a `'\r'` before each `'\n'`; since every
/// line is trimmed before it is read, neither changes what is parsed.)
pub open spec fn lines(s: Seq<char>) -> Seq<Seq<char>> {
    split_on(s, '\n')
}

/// Splits `s` into its pieces between occurrences of `sep` (see `split_on`).
pub fn split_chars(s: &Vec<char>, sep: char) -> (r: Vec<Vec<char>>)
    ensures
        r@.map_values(|l: Vec<char>| l@) == split_on(s@, sep),
{
    let mut done: Vec<Vec<char>> = Vec::new();
    let mut cur: Vec<char> = Vec::new();
    let mut i: usize = 0;
    assert(s@.take(0) =~= Seq::<char>::empty());
    assert(done@.map_values(|l: Vec<char>| l@).push(cur@) =~= split_on(s@.take(0), sep));
    while i < s.len()
        invariant
            i <= s.len(),
            done@.map_values(|l: Vec<char>| l@).push(cur@) == split_on(s@.take(i as int), sep),
        decreases s.len() - i,
    {
        let c = s[i];
        let ghost t = s@.take(i + 1);
        assert(t.drop_last() =~= s@.take(i as int));
        assert(t.last() == c);
        if c == sep {
            let ghost old_done = done@;
            let line = cur;
            done.push(line);
            cur = Vec::new();
            assert(done@.map_values(|l: Vec<char>| l@).push(cur@) =~= old_done.map_values(
                |l: Vec<char>| l@,
            ).push(line@).push(Seq::<char>::empty()));
        } else {
            let ghost old_cur = cur@;
            cur.push(c);
            assert(done@.map_values(|l: Vec<char>| l@).push(cur@) =~= done@.map_values(
                |l: Vec<char>| l@,
            ).push(old_cur).update(done@.len() as int, old_cur.push(c)));
        }
        i = i + 1;
    }
    assert(s@.take(s.len() as int) =~= s@);
    let ghost old_done = done@;
    done.push(cur);
    assert(done@.map_values(|l: Vec<char>| l@) =~= old_done.map_values(|l: Vec<char>| l@).push(
        cur@,
    ));
    done
}

/// What has been read of a desktop file so far.
pub struct DesktopScan {
    pub name: Seq<char>,
    pub exec_value: Seq<char>,
    pub icon: Option<Seq<char>>,
    pub app_type: Seq<char>,
    pub no_display: bool,
    pub hidden: bool,
    pub in_section: bool,
    pub stopped: bool,
}

pub open spec fn initial_scan() -> DesktopScan {
    DesktopScan {
        name: Seq::empty(),
        exec_value: Seq::empty(),
        icon: None,
        app_type: Seq::empty(),
        no_display: false,
        hidden: false,
        in_section: false,
        stopped: false,
    }
}

pub open spec fn starts_with(s: Seq<char>, prefix: Seq<char>) -> bool {
    prefix.len() <= s.len() && s.take(prefix.len() as int) == prefix
}

/// Reads one raw line: the `[Desktop Entry]` header opens the section, any
/// other section header after it ends the reading, and inside the section the
/// keys `Name` (first non-empty value wins), `Exec`, `Icon`, `Type` and the
/// flags `NoDisplay=true` and `Hidden=true` are taken.
pub open spec fn scan_step(f: DesktopScan, raw: Seq<char>) -> DesktopScan {
    let line = trim(raw);
    if f.stopped {
        f
    } else if line == "[Desktop Entry]"@ {
        DesktopScan { in_section: true, ..f }
    } else if line.len() > 0 && line[0] == '[' {
        if f.in_section {
            DesktopScan { stopped: true, ..f }
        } else {
            f
        }
    } else if !f.in_section {
        f
    } else if starts_with(line, "Name="@) {
        if f.name.len() == 0 {
            DesktopScan { name: line.skip(5), ..f }
        } else {
            f
        }
    } else if starts_with(line, "Exec="@) {
        DesktopScan { exec_value: line.skip(5), ..f }
    } else if starts_with(line, "Icon="@) {
        DesktopScan { icon: Some(line.skip(5)), ..f }
    } else if starts_with(line, "Type="@) {
        DesktopScan { app_type: line.skip(5), ..f }
    } else if line == "NoDisplay=true"@ {
        DesktopScan { no_display: true, ..f }
    } else if line == "Hidden=true"@ {
        DesktopScan { hidden: true, ..f }
    } else {
        f
    }
}

/// The result of reading `ls` in order.
pub open spec fn scan_lines(ls: Seq<Seq<char>>) -> DesktopScan
    decreases ls.len(),
{
    if ls.len() == 0 {
        initial_scan()
    } else {
        scan_step(scan_lines(ls.drop_last()), ls.last())
    }
}

/// Whether some pattern of `patterns` hides `name`.
pub open spec fn hidden_by_any(patterns: Seq<Seq<char>>, name: Seq<char>) -> bool {
    exists|i: int| 0 <= i < patterns.len() && hides(#[trigger] patterns[i], name)
}

/// The application that a desktop file's `content` describes, unless it is not
/// a visible application or one of `patterns` hides it.
pub open spec fn desktop_entry(content: Seq<char>, patterns: Seq<Seq<char>>) -> Option<
    AppEntryView,
> {
    let f = scan_lines(lines(content));
    if f.no_display || f.hidden || f.app_type != "Application"@ || f.name.len() == 0
        || f.exec_value.len() == 0 {
        None
    } else if hidden_by_any(patterns, f.name) {
        None
    } else {
        Some(AppEntryView { name: f.name, exec_clean: cleaned_exec(f.exec_value), icon: f.icon })
    }
}

struct Scan {
    name: Vec<char>,
    exec_value: Vec<char>,
    icon: Option<Vec<char>>,
    app_type: Vec<char>,
    no_display: bool,
    hidden: bool,
    in_section: bool,
    stopped: bool,
}

impl View for Scan {
    type V = DesktopScan;

    closed spec fn view(&self) -> DesktopScan {
        DesktopScan {
            name: self.name@,
            exec_value: self.exec_value@,
            icon: match self.icon {
                Some(v) => Some(v@),
                None => None,
            },
            app_type: self.app_type@,
            no_display: self.no_display,
            hidden: self.hidden,
            in_section: self.in_section,
            stopped: self.stopped,
        }
    }
}

/// Whether `s` equals `lit`.
fn equals_lit(s: &Vec<char>, lit: &str) -> (r: bool)
    ensures
        r == (s@ == lit@),
{
    let l = chars_of(lit);
    if l.len() != s.len() {
        return false;
    }
    let mut i: usize = 0;
    while i < s.len()
        invariant
            i <= s.len(),
            l.len() == s.len(),
            l@ == lit@,
            forall|j: int| 0 <= j < i ==> s@[j] == l@[j],
        decreases s.len() - i,
    {
        if s[i] != l[i] {
            return false;
        }
        i = i + 1;
    }
    assert(s@ =~= l@);
    true
}

/// Whether `s` begins with `lit`.
fn begins_with_lit(s: &Vec<char>, lit: &str) -> (r: bool)
    ensures
        r == starts_with(s@, lit@),
{
    let l = chars_of(lit);
    if l.len() > s.len() {
        return false;
    }
    let mut i: usize = 0;
    while i < l.len()
        invariant
            i <= l.len() <= s.len(),
            l@ == lit@,
            forall|j: int| 0 <= j < i ==> s@[j] == l@[j],
        decreases l.len() - i,
    {
        if s[i] != l[i] {
            assert(s@.take(l.len() as int)[i as int] != l@[i as int]);
            return false;
        }
        i = i + 1;
    }
    assert(s@.take(l.len() as int) =~= l@);
    true
}

/// `s` from index `k` on.
fn tail_from(s: &Vec<char>, k: usize) -> (r: Vec<char>)
    requires
        k <= s.len(),
    ensures
        r@ == s@.skip(k as int),
{
    let mut r: Vec<char> = Vec::new();
    let mut i = k;
    while i < s.len()
        invariant
            k <= i <= s.len(),
            r@ == s@.subrange(k as int, i as int),
        decreases s.len() - i,
    {
        r.push(s[i]);
        assert(s@.subrange(k as int, i + 1) =~= s@.subrange(k as int, i as int).push(s@[i as int]));
        i = i + 1;
    }
    assert(s@.subrange(k as int, s.len() as int) =~= s@.skip(k as int));
    r
}

fn scan_line(f: &mut Scan, raw: &Vec<char>)
    ensures
        final(f)@ == scan_step(old(f)@, raw@),
{
    let line = trim_chars(raw);
    proof {
        reveal_strlit("Name=");
        reveal_strlit("Exec=");
        reveal_strlit("Icon=");
        reveal_strlit("Type=");
    }
    if f.stopped {
    } else if equals_lit(&line, "[Desktop Entry]") {
        f.in_section = true;
    } else if line.len() > 0 && line[0] == '[' {
        if f.in_section {
            f.stopped = true;
        }
    } else if !f.in_section {
    } else if begins_with_lit(&line, "Name=") {
        if f.name.len() == 0 {
            f.name = tail_from(&line, 5);
        }
    } else if begins_with_lit(&line, "Exec=") {
        f.exec_value = tail_from(&line, 5);
    } else if begins_with_lit(&line, "Icon=") {
        f.icon = Some(tail_from(&line, 5));
    } else if begins_with_lit(&line, "Type=") {
        f.app_type = tail_from(&line, 5);
    } else if equals_lit(&line, "NoDisplay=true") {
        f.no_display = true;
    } else if equals_lit(&line, "Hidden=true") {
        f.hidden = true;
    }
}

/// Whether some pattern of `patterns` hides `name`.
pub fn hidden_by_patterns(name: &str, patterns: &[String]) -> (r: bool)
    ensures
        r == hidden_by_any(patterns@.map_values(|p: String| p@), name@),
{
    let ghost ps = patterns@.map_values(|p: String| p@);
    let mut i: usize = 0;
    while i < patterns.len()
        invariant
            i <= patterns.len(),
            ps == patterns@.map_values(|p: String| p@),
            forall|j: int| 0 <= j < i ==> !hides(#[trigger] ps[j], name@),
        decreases patterns.len() - i,
    {
        if matches_hidden_pattern(name, patterns[i].as_str()) {
            assert(hides(ps[i as int], name@));
            return true;
        }
        i = i + 1;
    }
    false
}

/// Parses the text of a single .desktop file and returns an `AppEntry` if the
/// file represents a visible application not matching any hidden pattern.
pub fn parse_desktop_entry(content: &str, hidden_patterns: &[String]) -> (r: Option<AppEntry>)
    ensures
        match r {
            Some(e) => desktop_entry(content@, hidden_patterns@.map_values(|p: String| p@))
                == Some(e@),
            None => desktop_entry(content@, hidden_patterns@.map_values(|p: String| p@))
                is None,
        },
{
    let chars = chars_of(content);
    let ls = split_chars(&chars, '\n');
    let ghost lv = ls@.map_values(|l: Vec<char>| l@);
    let mut f = Scan {
        name: Vec::new(),
        exec_value: Vec::new(),
        icon: None,
        app_type: Vec::new(),
        no_display: false,
        hidden: false,
        in_section: false,
        stopped: false,
    };
    let mut i: usize = 0;
    assert(lv.take(0) =~= Seq::<Seq<char>>::empty());
    while i < ls.len()
        invariant
            i <= ls.len(),
            lv == ls@.map_values(|l: Vec<char>| l@),
            f@ == scan_lines(lv.take(i as int)),
        decreases ls.len() - i,
    {
        scan_line(&mut f, &ls[i]);
        assert(lv.take(i + 1).drop_last() =~= lv.take(i as int));
        assert(lv.take(i + 1).last() == ls@[i as int]@);
        i = i + 1;
    }
    assert(lv.take(ls.len() as int) =~= lv);
    let ghost fv = f@;
    assert(fv == scan_lines(lines(content@)));
    if f.no_display || f.hidden || !equals_lit(&f.app_type, "Application") || f.name.len() == 0
        || f.exec_value.len() == 0 {
        return None;
    }
    let name = string_of(&f.name);
    if hidden_by_patterns(name.as_str(), hidden_patterns) {
        return None;
    }
    let command = string_of(&f.exec_value);
    let exec_clean = clean_exec(command.as_str());
    let icon = match &f.icon {
        Some(v) => Some(string_of(v)),
        None => None,
    };
    Some(AppEntry { name, exec_clean, icon })
}


/// Where a tile's icon comes from.
#[derive(Clone, Debug, PartialEq, Eq)]
pub enum IconSource {
    /// An image file, by absolute path.
    Path(String),
    /// An icon of the theme, by name.
    Named(String),
}

pub enum IconSourceView {
    Path(Seq<char>),
    Named(Seq<char>),
}

impl View for IconSource {
    type V = IconSourceView;

    open spec fn view(&self) -> IconSourceView {
        match self {
            IconSource::Path(s) => IconSourceView::Path(s@),
            IconSource::Named(s) => IconSourceView::Named(s@),
        }
    }
}

/// Icon of the theme shown for an application that names none.
pub open spec fn fallback_icon() -> Seq<char> {
    "application-x-executable"@
}

/// The icon shown for an entry's `Icon` value: an absolute path (starting
/// with `/`) is loaded as a file, any other value is a theme icon name, and
/// without a value the generic executable icon is used.
pub open spec fn icon_source_of(icon: Option<Seq<char>>) -> IconSourceView {
    match icon {
        Some(v) => if v.len() > 0 && v[0] == '/' {
            IconSourceView::Path(v)
        } else {
            IconSourceView::Named(v)
        },
        None => IconSourceView::Named(fallback_icon()),
    }
}

/// The icon shown for an entry (see `icon_source_of`).
pub fn icon_source(icon: &Option<String>) -> (r: IconSource)
    ensures
        r@ == icon_source_of(opt_view(*icon)),
{
    match icon {
        Some(name) => {
            let cs = chars_of(name.as_str());
            if cs.len() > 0 && cs[0] == '/' {
                IconSource::Path(name.clone())
            } else {
                IconSource::Named(name.clone())
            }
        },
        None => {
            let s = string_of(&chars_of("application-x-executable"));
            IconSource::Named(s)
        },
    }
}

} // verus!
