use vstd::prelude::*;

use crate::desktop::{
    desktop_entry, lines, scan_lines, scan_step, split_on, DesktopScan, IconSourceView,
    icon_source_of,
};
use crate::text::{is_white_space, trim, trim_end, trim_start};
use crate::desktop::{cleaned_exec, starts_with};

verus! {

/// Adding a line after a separator adds one piece to the split.
proof fn lemma_split_append(s: Seq<char>, sep: char, line: Seq<char>)
    requires
        !line.contains(sep),
    ensures
        split_on(s + seq![sep] + line, sep) == split_on(s, sep).push(line),
    decreases line.len(),
{
    let x = s + seq![sep] + line;
    if line.len() == 0 {
        assert(x.drop_last() =~= s);
        assert(x.last() == sep);
        assert(line =~= Seq::<char>::empty());
        assert(split_on(x, sep) == split_on(x.drop_last(), sep).push(Seq::<char>::empty()));
    } else {
        let shorter = line.drop_last();
        assert(!shorter.contains(sep)) by {
            if shorter.contains(sep) {
                let k = choose|k: int| 0 <= k < shorter.len() && shorter[k] == sep;
                assert(line[k] == sep);
            }
        }
        lemma_split_append(s, sep, shorter);
        assert(x.drop_last() =~= s + seq![sep] + shorter);
        assert(x.last() == line.last());
        assert(line.last() != sep) by {
            if line.last() == sep {
                assert(line.contains(sep));
            }
        }
        let prev = split_on(s, sep).push(shorter);
        assert(prev.update(prev.len() - 1, prev.last().push(line.last())) =~= split_on(s, sep).push(
            line,
        )) by {
            assert(shorter.push(line.last()) =~= line);
        }
    }
}

/// Reading one more line after the text: what is read is one more step.
proof fn lemma_entry_append_line(content: Seq<char>, line: Seq<char>)
    requires
        !line.contains('\n'),
    ensures
        scan_lines(lines(content + seq!['\n'] + line)) == scan_step(
            scan_lines(lines(content)),
            line,
        ),
{
    lemma_split_append(content, '\n', line);
    let ls = lines(content + seq!['\n'] + line);
    assert(ls.drop_last() =~= lines(content));
    assert(ls.last() == line);
}

/// A key line `key` + `value`, with no white space in the value and
/// starting with a non-blank character, reads as itself after trimming.
proof fn lemma_trim_key_line(key: Seq<char>, value: Seq<char>)
    requires
        key.len() > 0,
        !is_white_space(key[0]),
        !is_white_space(key.last()),
        forall|i: int| 0 <= i < value.len() ==> !is_white_space(#[trigger] value[i]),
    ensures
        trim(key + value) == key + value,
{
    let l = key + value;
    assert(l[0] == key[0]);
    assert(trim_start(l) == l);
    if value.len() > 0 {
        assert(l.last() == value.last());
    } else {
        assert(l.last() == key.last());
    }
    assert(trim_end(l) == l);
}

/// `key` + `value` equals `key` + `other` only when the values are equal.
proof fn lemma_same_key_value(key: Seq<char>, value: Seq<char>, other: Seq<char>)
    requires
        key + value == key + other,
    ensures
        value == other,
{
    assert(value =~= (key + value).skip(key.len() as int));
    assert(other =~= (key + other).skip(key.len() as int));
}

/// The value line of a flag key: reading `key` + `value` leaves the scan
/// unchanged unless the value is `true`.
proof fn lemma_flag_line_ignored(f: DesktopScan, key: Seq<char>, value: Seq<char>)
    requires
        key == "NoDisplay="@ || key == "Hidden="@,
        value != "true"@,
        forall|i: int| 0 <= i < value.len() ==> !is_white_space(#[trigger] value[i]),
    ensures
        scan_step(f, key + value) == f,
{
    reveal_strlit("NoDisplay=");
    reveal_strlit("Hidden=");
    reveal_strlit("[Desktop Entry]");
    reveal_strlit("Name=");
    reveal_strlit("Exec=");
    reveal_strlit("Icon=");
    reveal_strlit("Type=");
    reveal_strlit("NoDisplay=true");
    reveal_strlit("Hidden=true");
    reveal_strlit("true");
    let l = key + value;
    lemma_trim_key_line(key, value);
    assert(l[0] == key[0]);
    assert(l.len() >= 5);
    assert(l[1] == key[1]);
    if l == "[Desktop Entry]"@ {
        assert(l[0] == '[');
    }
    if key == "NoDisplay="@ {
        assert("NoDisplay=true"@ =~= key + "true"@);
        if l == "NoDisplay=true"@ {
            lemma_same_key_value(key, value, "true"@);
        }
        lemma_not_starts(l, "Name="@, 1);
        assert(l != "Hidden=true"@) by {
            if l == "Hidden=true"@ {
                assert(l[0] == 'H');
            }
        }
    } else {
        assert("Hidden=true"@ =~= key + "true"@);
        if l == "Hidden=true"@ {
            lemma_same_key_value(key, value, "true"@);
        }
        assert(l != "NoDisplay=true"@) by {
            if l == "NoDisplay=true"@ {
                assert(l[0] == 'N');
            }
        }
        lemma_not_starts(l, "Name="@, 0);
    }
    lemma_not_starts(l, "Exec="@, 0);
    lemma_not_starts(l, "Icon="@, 0);
    lemma_not_starts(l, "Type="@, 0);
}

/// `s` does not begin with `p` when they differ at index `k`.
proof fn lemma_not_starts(s: Seq<char>, p: Seq<char>, k: int)
    requires
        0 <= k < p.len(),
        k < s.len(),
        s[k] != p[k],
    ensures
        !crate::desktop::starts_with(s, p),
{
    if crate::desktop::starts_with(s, p) {
        assert(s.take(p.len() as int)[k] == s[k]);
    }
}

/// Only `NoDisplay=true` and `Hidden=true` hide an application: a line
/// `NoDisplay=` or `Hidden=` with any other value (one word, no white space),
/// added at the end of a desktop file, changes nothing about what the file
/// describes; the line with `true` added inside the `[Desktop Entry]`
/// section makes it describe no application.
pub proof fn law_only_true_flags_hide(
    content: Seq<char>,
    patterns: Seq<Seq<char>>,
    key: Seq<char>,
    value: Seq<char>,
)
    requires
        key == "NoDisplay="@ || key == "Hidden="@,
        !value.contains('\n'),
        forall|i: int| 0 <= i < value.len() ==> !is_white_space(#[trigger] value[i]),
    ensures
        value != "true"@ ==> desktop_entry(content + seq!['\n'] + key + value, patterns)
            == desktop_entry(content, patterns),
        value == "true"@ && scan_lines(lines(content)).in_section && !scan_lines(
            lines(content),
        ).stopped ==> desktop_entry(content + seq!['\n'] + key + value, patterns) is None,
{
    reveal_strlit("NoDisplay=");
    reveal_strlit("Hidden=");
    let line = key + value;
    assert(!line.contains('\n')) by {
        if line.contains('\n') {
            let k = choose|k: int| 0 <= k < line.len() && line[k] == '\n';
            if k >= key.len() {
                assert(value[k - key.len()] == '\n');
            }
        }
    }
    assert(content + seq!['\n'] + key + value =~= content + seq!['\n'] + line);
    lemma_entry_append_line(content, line);
    if value != "true"@ {
        lemma_flag_line_ignored(scan_lines(lines(content)), key, value);
    } else {
        reveal_strlit("true");
        reveal_strlit("NoDisplay=true");
        reveal_strlit("Hidden=true");
        reveal_strlit("[Desktop Entry]");
        reveal_strlit("Name=");
        reveal_strlit("Exec=");
        reveal_strlit("Icon=");
        reveal_strlit("Type=");
        lemma_trim_key_line(key, value);
        assert(line[0] == key[0]);
        assert(line[1] == key[1]);
        if line == "[Desktop Entry]"@ {
            assert(line[0] == '[');
        }
        if key == "NoDisplay="@ {
            assert(line =~= "NoDisplay=true"@);
            lemma_not_starts(line, "Name="@, 1);
        } else {
            assert(line =~= "Hidden=true"@);
            lemma_not_starts(line, "Name="@, 0);
            assert(line != "NoDisplay=true"@) by {
                if line == "NoDisplay=true"@ {
                    assert(line[0] == 'N');
                }
            }
        }
        lemma_not_starts(line, "Exec="@, 0);
        lemma_not_starts(line, "Icon="@, 0);
        lemma_not_starts(line, "Type="@, 0);
    }
}

/// A tile's icon carries the entry's `Icon` value unchanged: a value that
/// begins with `/` is loaded as that file, any other value is looked up in
/// the theme under exactly that name.
pub proof fn law_icon_value_passes_unchanged(value: Seq<char>)
    ensures
        value.len() > 0 && value[0] == '/' ==> icon_source_of(Some(value))
            == IconSourceView::Path(value),
        !(value.len() > 0 && value[0] == '/') ==> icon_source_of(Some(value))
            == IconSourceView::Named(value),
        match icon_source_of(Some(value)) {
            IconSourceView::Path(p) => p == value,
            IconSourceView::Named(n) => n == value,
        },
{
}


/// Inside the `[Desktop Entry]` section, a key line sets its key: a later
/// `Exec=`, `Icon=` or `Type=` line replaces the value read so far, and a
/// `Name=` line sets the name only when none was read yet (the first name
/// wins). Values here are one word without white space.
pub proof fn law_key_lines_set_their_keys(content: Seq<char>, value: Seq<char>)
    requires
        scan_lines(lines(content)).in_section,
        !scan_lines(lines(content)).stopped,
        !value.contains('\n'),
        forall|i: int| 0 <= i < value.len() ==> !is_white_space(#[trigger] value[i]),
    ensures
        scan_lines(lines(content + seq!['\n'] + "Exec="@ + value)) == (DesktopScan {
            exec_value: value,
            ..scan_lines(lines(content))
        }),
        scan_lines(lines(content + seq!['\n'] + "Icon="@ + value)) == (DesktopScan {
            icon: Some(value),
            ..scan_lines(lines(content))
        }),
        scan_lines(lines(content + seq!['\n'] + "Type="@ + value)) == (DesktopScan {
            app_type: value,
            ..scan_lines(lines(content))
        }),
        scan_lines(lines(content + seq!['\n'] + "Name="@ + value)) == if scan_lines(
            lines(content),
        ).name.len() == 0 {
            DesktopScan { name: value, ..scan_lines(lines(content)) }
        } else {
            scan_lines(lines(content))
        },
{
    reveal_strlit("[Desktop Entry]");
    reveal_strlit("Name=");
    reveal_strlit("Exec=");
    reveal_strlit("Icon=");
    reveal_strlit("Type=");
    let f = scan_lines(lines(content));
    let e = "Exec="@ + value;
    lemma_key_line(content, "Exec="@, value);
    lemma_not_starts(e, "Name="@, 0);
    assert(e != "[Desktop Entry]"@);
    assert(crate::desktop::scan_step(f, e) == (DesktopScan { exec_value: value, ..f }));
    let ic = "Icon="@ + value;
    lemma_key_line(content, "Icon="@, value);
    lemma_not_starts(ic, "Name="@, 0);
    lemma_not_starts(ic, "Exec="@, 0);
    assert(ic != "[Desktop Entry]"@);
    assert(crate::desktop::scan_step(f, ic) == (DesktopScan { icon: Some(value), ..f }));
    let t = "Type="@ + value;
    lemma_key_line(content, "Type="@, value);
    lemma_not_starts(t, "Name="@, 0);
    lemma_not_starts(t, "Exec="@, 0);
    lemma_not_starts(t, "Icon="@, 0);
    assert(t != "[Desktop Entry]"@);
    let n = "Name="@ + value;
    lemma_key_line(content, "Name="@, value);
    assert(n != "[Desktop Entry]"@);
}

/// Reading one more key line `key` + `value` (a five-character key) is one
/// more step, and the line reads as itself.
proof fn lemma_key_line(content: Seq<char>, key: Seq<char>, value: Seq<char>)
    requires
        key.len() == 5,
        !is_white_space(key[0]),
        !is_white_space(key[4]),
        key[0] != '[',
        !key.contains('\n'),
        !value.contains('\n'),
        forall|i: int| 0 <= i < value.len() ==> !is_white_space(#[trigger] value[i]),
    ensures
        scan_lines(lines(content + seq!['\n'] + key + value)) == crate::desktop::scan_step(
            scan_lines(lines(content)),
            key + value,
        ),
        trim(key + value) == key + value,
        (key + value).skip(5) == value,
        (key + value).take(5) == key,
        (key + value)[0] == key[0],
        starts_with(key + value, key),
{
    let line = key + value;
    assert(!line.contains('\n')) by {
        if line.contains('\n') {
            let j = choose|j: int| 0 <= j < line.len() && line[j] == '\n';
            if j >= key.len() {
                assert(value[j - key.len()] == '\n');
            } else {
                assert(key[j] == '\n');
            }
        }
    }
    assert(content + seq!['\n'] + key + value =~= content + seq!['\n'] + line);
    lemma_entry_append_line(content, line);
    assert(key.last() == key[4]);
    lemma_trim_key_line(key, value);
    assert(line.take(5) =~= key);
    assert(line.skip(5) =~= value);
}

/// An Exec value with no `%` in it is launched as it is, only trimmed.
pub proof fn law_exec_without_codes_is_trimmed(exec: Seq<char>)
    requires
        !exec.contains('%'),
    ensures
        cleaned_exec(exec) == trim(exec),
{
    assert forall|k: int| 0 <= k < crate::desktop::field_codes().len() implies !crate::laws::has_pair(
        exec,
        '%',
        #[trigger] crate::desktop::field_codes()[k],
    ) by {
        if crate::laws::has_pair(exec, '%', crate::desktop::field_codes()[k]) {
            let i = choose|i: int| 0 <= i < exec.len() - 1 && #[trigger] exec[i] == '%' && exec[i + 1] == crate::desktop::field_codes()[k];
            assert(exec.contains('%'));
        }
    }
    crate::laws::lemma_strip_codes_none(exec, crate::desktop::field_codes());
}

} // verus!
