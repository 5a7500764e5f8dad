//! Turning what Windows reports about a process into a stable identity (the
//! executable name) and a label a person can read.
//!
//! Saved levels are keyed on the executable file name rather than on the
//! session's display name, which is often empty, localised or an unexpanded
//! resource reference such as `@%SystemRoot%\System32\AudioSrv.Dll,-202`.
//! Asking Windows for the path of a process happens outside this crate.

use vstd::prelude::*;
use vstd::string::StrSliceExecFns;
use vstd::string::StringExecFns;

use crate::text::{
    char_to_uppercase, from_utf16_lossy, push_char, to_lowercase, to_owned_string, trim,
    lowercase_of, trim_spec, uppercase_of, utf16_lossy, lemma_utf16_lossy_no_nul,
    lemma_trim_adds_nothing,
};

verus! {

/// A path separator on Windows: `\`, and `/` too except in a verbatim
/// (`\\?\`) path, where only `\` separates.
pub open spec fn is_separator(c: char, verbatim: bool) -> bool {
    c == '\\' || (!verbatim && c == '/')
}

/// Whether `c` is an ASCII letter, as a drive letter must be.
pub open spec fn is_drive_letter(c: char) -> bool {
    ('a' <= c <= 'z') || ('A' <= c <= 'Z')
}

/// Whether `path` is verbatim: it starts with `\\?\`.
pub open spec fn is_verbatim(path: Seq<char>) -> bool {
    path.len() >= 4 && path[0] == '\\' && path[1] == '\\' && path[2] == '?' && path[3] == '\\'
}

/// Index of the first separator in `path` at or after `from`, or the length
/// of `path` when there is none.
pub open spec fn component_end(path: Seq<char>, from: int, verbatim: bool) -> int
    decreases path.len() - from,
{
    if from >= path.len() {
        path.len() as int
    } else if is_separator(path[from], verbatim) {
        from
    } else {
        component_end(path, from + 1, verbatim)
    }
}

/// Length of the prefix that names a volume rather than a directory or file:
/// `\\?\UNC\server\share`, `\\?\C:`, `\\?\name`, `\\.\device`,
/// `\\server\share` (both parts non-empty) or `C:`; 0 when there is none.
pub open spec fn prefix_len(p: Seq<char>) -> int {
    if is_verbatim(p) {
        if p.len() >= 8 && p[4] == 'U' && p[5] == 'N' && p[6] == 'C' && p[7] == '\\' {
            let server_end = component_end(p, 8, true);
            if server_end < p.len() {
                component_end(p, server_end + 1, true)
            } else {
                server_end
            }
        } else if p.len() >= 6 && is_drive_letter(p[4]) && p[5] == ':' && (p.len() == 6 || p[6]
            == '\\') {
            6
        } else {
            component_end(p, 4, true)
        }
    } else if p.len() >= 4 && is_separator(p[0], false) && is_separator(p[1], false) && p[2] == '.'
        && is_separator(p[3], false) {
        component_end(p, 4, false)
    } else if p.len() >= 2 && is_separator(p[0], false) && is_separator(p[1], false) {
        let server_end = component_end(p, 2, false);
        if server_end > 2 && server_end < p.len() && component_end(p, server_end + 1, false)
            > server_end + 1 {
            component_end(p, server_end + 1, false)
        } else {
            0
        }
    } else if p.len() >= 2 && is_drive_letter(p[0]) && p[1] == ':' {
        2
    } else {
        0
    }
}

/// Where the last segment of `q` starts: just after its last separator, or
/// at 0 when it has none.
pub open spec fn segment_start(q: Seq<char>, verbatim: bool) -> int
    decreases q.len(),
{
    if q.len() == 0 {
        0
    } else if is_separator(q.last(), verbatim) {
        q.len() as int
    } else {
        segment_start(q.drop_last(), verbatim)
    }
}

pub proof fn lemma_segment_start(q: Seq<char>, v: bool)
    ensures
        0 <= segment_start(q, v) <= q.len(),
        q.len() > 0 && !is_separator(q.last(), v) ==> segment_start(q, v) < q.len(),
        forall|k: int| segment_start(q, v) <= k < q.len() ==> !is_separator(#[trigger] q[k], v),
        segment_start(q, v) > 0 ==> is_separator(q[segment_start(q, v) - 1], v),
    decreases q.len(),
{
    if q.len() > 0 && !is_separator(q.last(), v) {
        lemma_segment_start(q.drop_last(), v);
        assert forall|k: int| segment_start(q, v) <= k < q.len() implies !is_separator(
            #[trigger] q[k],
            v,
        ) by {
            if k < q.len() - 1 {
                assert(q[k] == q.drop_last()[k]);
            }
        }
        if segment_start(q, v) > 0 {
            assert(q[segment_start(q, v) - 1] == q.drop_last()[segment_start(q, v) - 1]);
        }
    }
}

/// The final component of the part `q` of a path after its prefix, when
/// that component is a name: trailing separators are ignored; a `.`
/// segment is skipped, except in a verbatim path, where it is a component
/// of its own and no name; a `..` segment is no name either.
pub open spec fn final_component(q: Seq<char>, verbatim: bool) -> Option<Seq<char>>
    decreases q.len(),
{
    if q.len() == 0 {
        None
    } else if is_separator(q.last(), verbatim) {
        final_component(q.drop_last(), verbatim)
    } else {
        let s = segment_start(q, verbatim);
        let segment = q.subrange(s, q.len() as int);
        if segment == seq!['.'] {
            if verbatim {
                None
            } else {
                proof {
                    lemma_segment_start(q, verbatim);
                }
                final_component(q.take(s), verbatim)
            }
        } else if segment == seq!['.', '.'] {
            None
        } else {
            Some(segment)
        }
    }
}

/// The file name at the end of a Windows path: the final component after
/// the volume prefix, when it is a name. A path that is only a prefix, such
/// as `\\server\share` or `C:`, has none.
pub open spec fn file_name_of(path: Seq<char>) -> Option<Seq<char>> {
    final_component(path.skip(prefix_len(path)), is_verbatim(path))
}

/// A file name is one component: it holds no separator and is not empty.
pub proof fn lemma_file_name_is_one_component(q: Seq<char>, verbatim: bool)
    ensures
        final_component(q, verbatim) matches Some(f) ==> f.len() > 0 && forall|k: int|
            0 <= k < f.len() ==> !is_separator(#[trigger] f[k], verbatim),
    decreases q.len(),
{
    if q.len() > 0 {
        if is_separator(q.last(), verbatim) {
            lemma_file_name_is_one_component(q.drop_last(), verbatim);
        } else {
            lemma_segment_start(q, verbatim);
            let s = segment_start(q, verbatim);
            let segment = q.subrange(s, q.len() as int);
            if segment == seq!['.'] {
                if !verbatim {
                    lemma_file_name_is_one_component(q.take(s), verbatim);
                }
            } else if segment != seq!['.', '.'] {
                assert forall|k: int| 0 <= k < segment.len() implies !is_separator(
                    #[trigger] segment[k],
                    verbatim,
                ) by {
                    assert(segment[k] == q[s + k]);
                }
            }
        }
    }
}

/// In a path on a drive, `C:` followed by any directories and a last `\`,
/// the file name is everything after that last `\`, provided it holds no
/// `\` or `/` and is not `.` or `..`. Spaces and every other character are
/// part of the name.
pub proof fn lemma_drive_path_file_name(drive: char, dirs: Seq<char>, name: Seq<char>)
    requires
        ('a' <= drive <= 'z') || ('A' <= drive <= 'Z'),
        name.len() > 0,
        forall|k: int| 0 <= k < name.len() ==> #[trigger] name[k] != '\\' && name[k] != '/',
        name != seq!['.'],
        name != seq!['.', '.'],
    ensures
        file_name_of(seq![drive, ':'] + dirs + seq!['\\'] + name) == Some(name),
{
    let path = seq![drive, ':'] + dirs + seq!['\\'] + name;
    assert(!is_verbatim(path));
    assert(path[0] == drive);
    assert(path[1] == ':');
    assert(prefix_len(path) == 2);
    let q = path.skip(2);
    assert(q =~= dirs + seq!['\\'] + name);
    let s: int = dirs.len() as int + 1;
    assert(q.last() == name[name.len() - 1]);
    assert(is_separator(q[s - 1], false));
    assert forall|k: int| s <= k < q.len() implies !is_separator(#[trigger] q[k], false) by {
        assert(q[k] == name[k - s]);
    }
    lemma_segment_start_at(q, s, false);
    assert(q.subrange(s, q.len() as int) =~= name);
}

fn is_separator_char(c: char, verbatim: bool) -> (r: bool)
    ensures
        r == is_separator(c, verbatim),
{
    c == '\\' || (!verbatim && c == '/')
}

fn is_drive_letter_char(c: char) -> (r: bool)
    ensures
        r == is_drive_letter(c),
{
    ('a' <= c && c <= 'z') || ('A' <= c && c <= 'Z')
}

/// `component_end`, computed.
fn find_component_end(path: &str, n: usize, from: usize, verbatim: bool) -> (r: usize)
    requires
        n == path@.len(),
        from <= n,
    ensures
        r == component_end(path@, from as int, verbatim),
        from <= r <= n,
{
    let mut i = from;
    while i < n && !is_separator_char(path.get_char(i), verbatim)
        invariant
            from <= i <= n,
            n == path@.len(),
            component_end(path@, from as int, verbatim) == component_end(path@, i as int, verbatim),
        decreases n - i,
    {
        i = i + 1;
    }
    i
}

/// `prefix_len`, computed.
fn find_prefix_len(path: &str, n: usize) -> (r: usize)
    requires
        n == path@.len(),
    ensures
        r == prefix_len(path@),
        r <= n,
{
    let verbatim = n >= 4 && path.get_char(0) == '\\' && path.get_char(1) == '\\'
        && path.get_char(2) == '?' && path.get_char(3) == '\\';
    if verbatim {
        if n >= 8 && path.get_char(4) == 'U' && path.get_char(5) == 'N' && path.get_char(6) == 'C'
            && path.get_char(7) == '\\' {
            let server_end = find_component_end(path, n, 8, true);
            if server_end < n {
                find_component_end(path, n, server_end + 1, true)
            } else {
                server_end
            }
        } else if n >= 6 && is_drive_letter_char(path.get_char(4)) && path.get_char(5) == ':' && (n
            == 6 || path.get_char(6) == '\\') {
            6
        } else {
            find_component_end(path, n, 4, true)
        }
    } else if n >= 4 && is_separator_char(path.get_char(0), false) && is_separator_char(
        path.get_char(1),
        false,
    ) && path.get_char(2) == '.' && is_separator_char(path.get_char(3), false) {
        find_component_end(path, n, 4, false)
    } else if n >= 2 && is_separator_char(path.get_char(0), false) && is_separator_char(
        path.get_char(1),
        false,
    ) {
        let server_end = find_component_end(path, n, 2, false);
        if server_end > 2 && server_end < n {
            let share_end = find_component_end(path, n, server_end + 1, false);
            if share_end > server_end + 1 {
                share_end
            } else {
                0
            }
        } else {
            0
        }
    } else if n >= 2 && is_drive_letter_char(path.get_char(0)) && path.get_char(1) == ':' {
        2
    } else {
        0
    }
}

/// Position of the file name at the end of `path`, as `(start, end)`.
fn file_name_range(path: &str) -> (r: Option<(usize, usize)>)
    ensures
        match r {
            Some((a, b)) => a <= b <= path@.len() && file_name_of(path@) == Some(
                path@.subrange(a as int, b as int),
            ),
            None => file_name_of(path@) is None,
        },
{
    let n = path.unicode_len();
    let first = find_prefix_len(path, n);
    let v = n >= 4 && path.get_char(0) == '\\' && path.get_char(1) == '\\' && path.get_char(2)
        == '?' && path.get_char(3) == '\\';
    assert(v == is_verbatim(path@));
    let ghost q = path@.skip(first as int);
    assert(q.take(n - first) =~= q);
    let mut end: usize = n;
    loop
        invariant
            first <= end <= n,
            n == path@.len(),
            q == path@.skip(first as int),
            v == is_verbatim(path@),
            first == prefix_len(path@),
            file_name_of(path@) == final_component(q.take(end - first), v),
        decreases end,
    {
        let ghost p = q.take(end - first);
        if end == first {
            return None;
        }
        let c = path.get_char(end - 1);
        assert(p.last() == c);
        if is_separator_char(c, v) {
            assert(p.drop_last() =~= q.take(end - 1 - first));
            end = end - 1;
        } else {
            let mut start: usize = end;
            while start > first && !is_separator_char(path.get_char(start - 1), v)
                invariant
                    first <= start <= end,
                    end <= n,
                    n == path@.len(),
                    forall|k: int| start <= k < end ==> !is_separator(#[trigger] path@[k], v),
                decreases start,
            {
                start = start - 1;
            }
            proof {
                lemma_segment_start(p, v);
                assert(segment_start(p, v) == start - first) by {
                    lemma_segment_start_at(p, start - first, v);
                }
                assert(p.subrange(start - first, p.len() as int) =~= path@.subrange(
                    start as int,
                    end as int,
                ));
            }
            let len = end - start;
            if len == 1 && path.get_char(start) == '.' {
                proof {
                    assert(path@.subrange(start as int, end as int) =~= seq!['.']);
                    assert(p.take(start - first) =~= q.take(start - first));
                }
                if v {
                    return None;
                }
                end = start;
            } else if len == 2 && path.get_char(start) == '.' && path.get_char(start + 1) == '.' {
                proof {
                    assert(path@.subrange(start as int, end as int) =~= seq!['.', '.']);
                }
                return None;
            } else {
                proof {
                    let seg = path@.subrange(start as int, end as int);
                    if len == 1 {
                        assert(seg[0] != '.');
                        assert(seg != seq!['.']);
                    }
                    if len == 2 {
                        assert(seg[0] != '.' || seg[1] != '.');
                        assert(seg != seq!['.', '.']);
                    }
                    assert(seg.len() == len);
                }
                return Some((start, end));
            }
        }
    }
}

proof fn lemma_segment_start_at(p: Seq<char>, s: int, v: bool)
    requires
        0 <= s < p.len(),
        forall|k: int| s <= k < p.len() ==> !is_separator(#[trigger] p[k], v),
        s == 0 || is_separator(p[s - 1], v),
    ensures
        segment_start(p, v) == s,
    decreases p.len(),
{
    assert(!is_separator(p[p.len() - 1], v));
    assert(p.last() == p[p.len() - 1]);
    assert(segment_start(p, v) == segment_start(p.drop_last(), v));
    if p.len() - 1 > s {
        assert forall|k: int| s <= k < p.drop_last().len() implies !is_separator(
            #[trigger] p.drop_last()[k],
            v,
        ) by {
            assert(p.drop_last()[k] == p[k]);
        }
        if s > 0 {
            assert(p.drop_last()[s - 1] == p[s - 1]);
        }
        lemma_segment_start_at(p.drop_last(), s, v);
    } else {
        assert(!is_separator(p.last(), v));
        if s > 0 {
            assert(p.drop_last().last() == p[s - 1]);
            assert(segment_start(p.drop_last(), v) == s);
        } else {
            assert(p.drop_last().len() == 0);
        }
    }
}

/// Lower-cased file name of an executable path, e.g. `firefox.exe`.
///
/// This is the key used in the configuration file, so it must stay stable.
pub fn executable_name(path: &str) -> (r: Option<String>)
    ensures
        match r {
            Some(name) => file_name_of(path@) matches Some(f) && name@ == lowercase_of(f),
            None => file_name_of(path@) is None,
        },
{
    match file_name_range(path) {
        Some((start, end)) => {
            let name = path.substring_char(start, end);
            Some(to_lowercase(name))
        },
        None => None,
    }
}

/// `executable` with a trailing `.exe` removed.
pub open spec fn exe_stem(executable: Seq<char>) -> Seq<char> {
    let n = executable.len();
    if n >= 4 && executable.subrange(n - 4, n as int) == seq!['.', 'e', 'x', 'e'] {
        executable.take(n - 4)
    } else {
        executable
    }
}

/// Underscores and hyphens read as spaces in a label.
pub open spec fn spaced(c: char) -> char {
    if c == '_' || c == '-' {
        ' '
    } else {
        c
    }
}

/// Words separated by spaces, each starting with a capital letter when
/// `capitalize` holds for the first one.
pub open spec fn title_words(s: Seq<char>, capitalize: bool) -> Seq<char>
    decreases s.len(),
{
    if s.len() == 0 {
        Seq::empty()
    } else {
        let c = spaced(s[0]);
        if c == ' ' {
            seq![' '] + title_words(s.drop_first(), true)
        } else if capitalize {
            uppercase_of(c) + title_words(s.drop_first(), false)
        } else {
            seq![c] + title_words(s.drop_first(), false)
        }
    }
}

/// The label `friendly_label` derives from an executable name.
pub open spec fn friendly_label_spec(executable: Seq<char>) -> Seq<char> {
    title_words(exe_stem(executable), true)
}

/// A human friendly label derived from the executable name:
/// `firefox.exe` -> `Firefox`, `some_app-name.exe` -> `Some App Name`.
///
/// Used only when the session reports no usable display name of its own.
pub fn friendly_label(executable: &str) -> (r: String)
    ensures
        r@ == friendly_label_spec(executable@),
{
    let n = executable.unicode_len();
    let mut stem_len: usize = n;
    if n >= 4 && executable.get_char(n - 4) == '.' && executable.get_char(n - 3) == 'e'
        && executable.get_char(n - 2) == 'x' && executable.get_char(n - 1) == 'e' {
        stem_len = n - 4;
        assert(executable@.subrange(n - 4, n as int) =~= seq!['.', 'e', 'x', 'e']);
    } else {
        proof {
            if n >= 4 {
                let t = executable@.subrange(n - 4, n as int);
                if t == seq!['.', 'e', 'x', 'e'] {
                    assert(t[0] == executable@[n - 4]);
                    assert(t[1] == executable@[n - 3]);
                    assert(t[2] == executable@[n - 2]);
                    assert(t[3] == executable@[n - 1]);
                }
            }
        }
    }
    let ghost stem = exe_stem(executable@);
    assert(stem =~= executable@.take(stem_len as int));
    let mut label = String::new();
    let mut capitalize = true;
    let mut i: usize = 0;
    proof {
        assert(stem.skip(0) =~= stem);
    }
    while i < stem_len
        invariant
            stem_len <= n,
            n == executable@.len(),
            stem == executable@.take(stem_len as int),
            i <= stem_len,
            label@ + title_words(stem.skip(i as int), capitalize) == title_words(stem, true),
        decreases stem_len - i,
    {
        let raw = executable.get_char(i);
        let c = if raw == '_' || raw == '-' {
            ' '
        } else {
            raw
        };
        let ghost rest = stem.skip(i as int);
        let ghost before = label@;
        let ghost cap_before = capitalize;
        proof {
            assert(rest[0] == raw);
            assert(rest.drop_first() =~= stem.skip(i + 1));
            assert(c == spaced(rest[0]));
        }
        if c == ' ' {
            push_char(&mut label, ' ');
            capitalize = true;
            proof {
                assert(label@ =~= before + seq![' ']);
            }
        } else if capitalize {
            let upper = char_to_uppercase(c);
            label.append(upper.as_str());
            capitalize = false;
            proof {
                assert(label@ =~= before + uppercase_of(c));
            }
        } else {
            push_char(&mut label, c);
            proof {
                assert(label@ =~= before + seq![c]);
            }
        }
        proof {
            let tail = title_words(stem.skip(i + 1), capitalize);
            assert(title_words(rest, cap_before) == (label@.subrange(before.len() as int, label@.len() as int)) + tail) by {
                assert(label@.subrange(before.len() as int, label@.len() as int) =~= if c == ' ' {
                    seq![' ']
                } else if cap_before {
                    uppercase_of(c)
                } else {
                    seq![c]
                });
            }
            assert(label@ + tail =~= before + title_words(rest, cap_before));
        }
        i = i + 1;
    }
    proof {
        assert(stem.skip(stem_len as int).len() == 0);
        assert(label@ =~= title_words(stem, true));
    }
    label
}

/// A display name that can be shown: trimmed, and neither empty nor an
/// unexpanded indirect string starting with `@`.
pub open spec fn usable_display_name_spec(raw: Seq<char>) -> Option<Seq<char>> {
    let trimmed = trim_spec(raw);
    if trimmed.len() == 0 || trimmed[0] == '@' {
        None
    } else {
        Some(trimmed)
    }
}

/// WASAPI display names are unusable in several well known shapes. Filter
/// those out so the caller can fall back to the executable name.
pub fn usable_display_name(raw: &str) -> (r: Option<String>)
    ensures
        match r {
            Some(name) => usable_display_name_spec(raw@) == Some(name@),
            None => usable_display_name_spec(raw@) is None,
        },
{
    let trimmed = trim(raw);
    if trimmed.unicode_len() == 0 {
        return None;
    }
    // Unexpanded indirect string, e.g. `@%SystemRoot%\System32\AudioSrv.Dll,-202`.
    if trimmed.get_char(0) == '@' {
        return None;
    }
    Some(to_owned_string(trimmed))
}

/// The text of a UTF-16 resource string: cut at its first NUL, decoded, and
/// with surrounding white space removed.
pub open spec fn clean_description_spec(units: Seq<u16>) -> Seq<char> {
    trim_spec(utf16_lossy(units.take(first_nul(units))))
}

/// Index of the first NUL in `units`, or its length when there is none.
pub open spec fn first_nul(units: Seq<u16>) -> int {
    if exists|i: int| 0 <= i < units.len() && units[i] == 0 {
        choose|i: int|
            0 <= i < units.len() && units[i] == 0 && forall|j: int| 0 <= j < i ==> units[j] != 0
    } else {
        units.len() as int
    }
}

/// A UTF-16 resource string cut at its first NUL, with surrounding space
/// removed.
///
/// `VerQueryValueW` is documented to report a length that counts the
/// characters including the NUL, but not every executable agrees: Spotify's
/// runs past its description into the next entry, which showed up as
/// "Spotify8?FileV". The string ends at the first NUL, whatever the length
/// claims.
pub fn clean_description(units: &[u16]) -> (r: String)
    ensures
        r@ == clean_description_spec(units@),
        !r@.contains('\0'),
{
    let n = units.len();
    let mut prefix: Vec<u16> = Vec::new();
    let mut i: usize = 0;
    while i < n && units[i] != 0
        invariant
            n == units@.len(),
            i <= n,
            prefix@ == units@.take(i as int),
            forall|j: int| 0 <= j < i ==> units@[j] != 0,
        decreases n - i,
    {
        prefix.push(units[i]);
        i = i + 1;
        assert(prefix@ =~= units@.take(i as int));
    }
    proof {
        if i < n {
            assert(units@[i as int] == 0);
            let k = first_nul(units@);
            assert(0 <= k < n && units@[k] == 0 && forall|j: int| 0 <= j < k ==> units@[j] != 0);
            if k < i {
                assert(units@[k] != 0);
            }
            if k > i {
                assert(units@[i as int] != 0);
            }
        } else {
            assert(!exists|j: int| 0 <= j < units@.len() && units@[j] == 0);
        }
        assert(first_nul(units@) == i);
    }
    let text = from_utf16_lossy(prefix.as_slice());
    proof {
        lemma_utf16_lossy_no_nul(prefix@);
        lemma_trim_adds_nothing(text@, '\0');
    }
    let trimmed = trim(text.as_str());
    to_owned_string(trimmed)
}

/// The description of an executable, from its version resource string: the
/// cleaned text, or none when nothing is left of it.
pub fn description_text(units: &[u16]) -> (r: Option<String>)
    ensures
        match r {
            Some(text) => text@ == clean_description_spec(units@) && text@.len() > 0,
            None => clean_description_spec(units@).len() == 0,
        },
{
    let text = clean_description(units);
    if text.unicode_len() == 0 {
        None
    } else {
        Some(text)
    }
}

/// The lower-case hexadecimal digit for `n` in 0..16.
pub open spec fn lower_hex_char(n: int) -> char {
    if n < 10 {
        (48 + n) as char
    } else {
        (87 + n) as char
    }
}

/// `v` as four lower-case hexadecimal digits.
pub open spec fn hex4_spec(v: u16) -> Seq<char> {
    seq![
        lower_hex_char(v as int / 0x1000),
        lower_hex_char((v as int / 0x100) % 16),
        lower_hex_char((v as int / 0x10) % 16),
        lower_hex_char(v as int % 16),
    ]
}

fn push_hex4(s: &mut String, v: u16)
    ensures
        final(s)@ == old(s)@ + hex4_spec(v),
{
    let digits = [v / 0x1000, (v / 0x100) % 16, (v / 0x10) % 16, v % 16];
    let mut i: usize = 0;
    let ghost start = s@;
    while i < 4
        invariant
            i <= 4,
            digits@ == seq![v / 0x1000, (v / 0x100) % 16, (v / 0x10) % 16, v % 16],
            s@ == start + hex4_spec(v).take(i as int),
        decreases 4 - i,
    {
        let d = digits[i];
        let c = if d < 10 {
            (48 + d as u8) as char
        } else {
            (87 + d as u8) as char
        };
        push_char(s, c);
        assert(hex4_spec(v).take(i + 1) =~= hex4_spec(v).take(i as int).push(c));
        i = i + 1;
    }
    assert(hex4_spec(v).take(4) =~= hex4_spec(v));
}

/// The version resource path of the `FileDescription` string for one
/// language and code page.
pub open spec fn description_query_spec(language: u16, codepage: u16) -> Seq<char> {
    "\\StringFileInfo\\"@ + hex4_spec(language) + hex4_spec(codepage) + "\\FileDescription"@
}

/// The version resource path of the `FileDescription` string for the
/// language and code page read from the translation table, e.g.
/// `\StringFileInfo\040904b0\FileDescription`. The description is stored
/// per language and code page, so the table is read first rather than
/// guessing the usual `040904b0`.
pub fn description_query(language: u16, codepage: u16) -> (r: String)
    ensures
        r@ == description_query_spec(language, codepage),
{
    let mut query = to_owned_string("\\StringFileInfo\\");
    push_hex4(&mut query, language);
    push_hex4(&mut query, codepage);
    query.append("\\FileDescription");
    query
}

} // verus!
