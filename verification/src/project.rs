//! The decisions behind the project commands (`new`, `run`, `build`): which
//! project names are allowed, reading a setting from `guppty.toml`, and
//! finding the file argument on a command line.

use vstd::prelude::*;
use crate::error::{lines_of, split_lines, strip_cr};
use crate::text::{chars_of, is_whitespace, push_chars, spec_is_whitespace, string_of};

verus! {

broadcast use vstd::string::group_string_axioms;

pub open spec fn is_name_char(c: char) -> bool {
    ('a' <= c && c <= 'z') || ('A' <= c && c <= 'Z') || ('0' <= c && c <= '9') || c == '-'
        || c == '_'
}

/// A project name: not empty, not starting with `-` or `.`, and made only of
/// ASCII letters, digits, dashes and underscores.
pub open spec fn valid_project_name(s: Seq<char>) -> bool {
    &&& s.len() > 0
    &&& s[0] != '-' && s[0] != '.'
    &&& forall|i: int| 0 <= i < s.len() ==> is_name_char(#[trigger] s[i])
}

/// Accepts a project name or says which characters are allowed.
pub fn validate_project_name(name: &str) -> (r: Result<(), String>)
    ensures
        r is Ok <==> valid_project_name(name@),
        r matches Err(m) ==> m@ == "Project names may contain letters, numbers, dashes, and underscores."@,
{
    let chars = chars_of(name);
    let mut valid = chars.len() > 0 && chars[0] != '-' && chars[0] != '.';
    let mut i: usize = 0;
    while i < chars.len()
        invariant
            chars@ == name@,
            i <= chars@.len(),
            valid == (chars@.len() > 0 && chars@[0] != '-' && chars@[0] != '.' && forall|k: int|
                0 <= k < i ==> is_name_char(#[trigger] chars@[k])),
        decreases chars@.len() - i,
    {
        let c = chars[i];
        let ok = ('a' <= c && c <= 'z') || ('A' <= c && c <= 'Z') || ('0' <= c && c <= '9') || c
            == '-' || c == '_';
        if !ok {
            valid = false;
        }
        i = i + 1;
    }
    if valid {
        Ok(())
    } else {
        Err(String::from_str("Project names may contain letters, numbers, dashes, and underscores."))
    }
}

/// `char::is_ascii_alphanumeric`: the ASCII letters of either case
/// (U+0041..=U+005A, U+0061..=U+007A) and the ASCII digits (U+0030..=U+0039).
pub open spec fn ascii_alphanumeric(c: char) -> bool {
    let n = c as int;
    (0x41 <= n && n <= 0x5a) || (0x61 <= n && n <= 0x7a) || (0x30 <= n && n <= 0x39)
}

/// A project name is accepted exactly when it is not empty, does not start
/// with `-` or `.`, and each character is ASCII alphanumeric, `-` or `_`;
/// so a name may use capital letters, and any other character refuses it.
pub proof fn lemma_project_name_characters(s: Seq<char>)
    ensures
        valid_project_name(s) <==> {
            &&& s.len() > 0
            &&& s[0] != '-' && s[0] != '.'
            &&& forall|i: int|
                0 <= i < s.len() ==> ascii_alphanumeric(#[trigger] s[i]) || s[i] == '-' || s[i] == '_'
        },
{
    assert forall|c: char| #[trigger] is_name_char(c) <==> (ascii_alphanumeric(c) || c == '-' || c == '_') by {
        assert(('a' <= c && c <= 'z') <==> (0x61 <= (c as int) && (c as int) <= 0x7a));
        assert(('A' <= c && c <= 'Z') <==> (0x41 <= (c as int) && (c as int) <= 0x5a));
        assert(('0' <= c && c <= '9') <==> (0x30 <= (c as int) && (c as int) <= 0x39));
    }
}

// ---------------------------------------------------------------------------
// Reading `key = value` settings
// ---------------------------------------------------------------------------

/// Drops leading characters for which `strip` holds.
pub open spec fn trim_start_by(s: Seq<char>, strip: spec_fn(char) -> bool) -> Seq<char>
    decreases s.len(),
{
    if s.len() > 0 && strip(s[0]) {
        trim_start_by(s.drop_first(), strip)
    } else {
        s
    }
}

/// Drops trailing characters for which `strip` holds.
pub open spec fn trim_end_by(s: Seq<char>, strip: spec_fn(char) -> bool) -> Seq<char>
    decreases s.len(),
{
    if s.len() > 0 && strip(s.last()) {
        trim_end_by(s.drop_last(), strip)
    } else {
        s
    }
}

/// `str::trim`: without leading and trailing Unicode white space.
pub open spec fn trim(s: Seq<char>) -> Seq<char> {
    trim_end_by(trim_start_by(s, |c: char| spec_is_whitespace(c)), |c: char| spec_is_whitespace(c))
}

/// `str::trim_matches('"')`: without leading and trailing double quotes.
pub open spec fn trim_quotes(s: Seq<char>) -> Seq<char> {
    trim_end_by(trim_start_by(s, |c: char| c == '"'), |c: char| c == '"')
}

/// The first place of `c` in `s` from `i`, if any.
pub open spec fn index_of(s: Seq<char>, c: char, i: int) -> Option<int>
    decreases s.len() - i,
{
    if !(0 <= i < s.len()) {
        None
    } else if s[i] == c {
        Some(i)
    } else {
        index_of(s, c, i + 1)
    }
}

/// The value a line gives `key`: the line is split at its first `=`, the
/// part before it (trimmed) must be the key, and the part after it is
/// trimmed of white space and then of quotes.
pub open spec fn line_value(line: Seq<char>, key: Seq<char>) -> Option<Seq<char>> {
    match index_of(line, '=', 0) {
        Some(i) => if trim(line.take(i)) == key {
            Some(trim_quotes(trim(line.skip(i + 1))))
        } else {
            None
        },
        None => None,
    }
}

/// The value of the first line that sets `key`.
pub open spec fn first_value(lines: Seq<Seq<char>>, key: Seq<char>) -> Option<Seq<char>>
    decreases lines.len(),
{
    if lines.len() == 0 {
        None
    } else {
        match line_value(lines[0], key) {
            Some(v) => Some(v),
            None => first_value(lines.drop_first(), key),
        }
    }
}

pub open spec fn spec_manifest_value(manifest: Seq<char>, key: Seq<char>) -> Option<Seq<char>> {
    first_value(lines_of(manifest), key)
}

fn strips(c: char, quote: bool) -> (r: bool)
    ensures
        r == (if quote { c == '"' } else { spec_is_whitespace(c) }),
{
    if quote {
        c == '"'
    } else {
        is_whitespace(c)
    }
}

/// The bounds of `v[from..to]` once characters for which `strip` holds are
/// dropped at both ends; `quote` picks `"` rather than white space.
fn trimmed_bounds(v: &Vec<char>, from: usize, to: usize, quote: bool) -> (r: (usize, usize))
    requires
        from <= to <= v@.len(),
    ensures
        from <= r.0 <= r.1 <= to,
        v@.subrange(r.0 as int, r.1 as int) == (if quote {
            trim_quotes(v@.subrange(from as int, to as int))
        } else {
            trim(v@.subrange(from as int, to as int))
        }),
{
    let ghost strip = if quote {
        |c: char| c == '"'
    } else {
        |c: char| spec_is_whitespace(c)
    };
    let mut a = from;
    while a < to && strips(v[a], quote)
        invariant
            from <= a <= to <= v@.len(),
            strip == (if quote {
                |c: char| c == '"'
            } else {
                |c: char| spec_is_whitespace(c)
            }),
            trim_start_by(v@.subrange(a as int, to as int), strip) == trim_start_by(
                v@.subrange(from as int, to as int),
                strip,
            ),
        decreases to - a,
    {
        assert(v@.subrange(a as int, to as int).drop_first() =~= v@.subrange(a + 1, to as int));
        a = a + 1;
    }
    assert(trim_start_by(v@.subrange(a as int, to as int), strip) == v@.subrange(a as int, to as int));
    let mut b = to;
    while b > a && strips(v[b - 1], quote)
        invariant
            from <= a <= b <= to <= v@.len(),
            strip == (if quote {
                |c: char| c == '"'
            } else {
                |c: char| spec_is_whitespace(c)
            }),
            trim_end_by(v@.subrange(a as int, b as int), strip) == trim_end_by(
                v@.subrange(a as int, to as int),
                strip,
            ),
        decreases b - a,
    {
        assert(v@.subrange(a as int, b as int).drop_last() =~= v@.subrange(a as int, b - 1));
        b = b - 1;
    }
    assert(trim_end_by(v@.subrange(a as int, b as int), strip) == v@.subrange(a as int, b as int));
    (a, b)
}

/// The value `line` gives `key`, with the line as `v[from..to]`.
fn value_in_line(v: &Vec<char>, from: usize, to: usize, key: &Vec<char>) -> (r: Option<String>)
    requires
        from <= to <= v@.len(),
    ensures
        r.deep_view() == line_value(v@.subrange(from as int, to as int), key@),
{
    let ghost line = v@.subrange(from as int, to as int);
    let mut i = from;
    while i < to && v[i] != '='
        invariant
            from <= i <= to <= v@.len(),
            line == v@.subrange(from as int, to as int),
            index_of(line, '=', i - from) == index_of(line, '=', 0),
        decreases to - i,
    {
        i = i + 1;
    }
    if i == to {
        return None;
    }
    let (a, b) = trimmed_bounds(v, from, i, false);
    assert(line.take(i - from) =~= v@.subrange(from as int, i as int));
    let mut same = b - a == key.len();
    if same {
        let mut k: usize = 0;
        let mut eq = true;
        while k < key.len()
            invariant
                b - a == key@.len(),
                a <= b <= v@.len(),
                k <= key@.len(),
                eq == (forall|m: int| 0 <= m < k ==> v@[a + m] == key@[m]),
            decreases key@.len() - k,
        {
            if v[a + k] != key[k] {
                eq = false;
            }
            k = k + 1;
        }
        same = eq;
    }
    assert(same == (v@.subrange(a as int, b as int) =~= key@)) by {
        if b - a == key@.len() && !same {
            let m = choose|m: int| 0 <= m < key@.len() && v@[a + m] != key@[m];
            assert(v@.subrange(a as int, b as int)[m] != key@[m]);
        }
    }
    if !same {
        return None;
    }
    let (c, d) = trimmed_bounds(v, i + 1, to, false);
    let (e, f) = trimmed_bounds(v, c, d, true);
    assert(line.skip(i - from + 1) =~= v@.subrange(i + 1, to as int));
    Some(string_of(v, e, f))
}

/// The value of the first `key = value` line of a manifest, trimmed of
/// spaces and quotes.
pub fn manifest_value(manifest: &str, key: &str) -> (r: Option<String>)
    ensures
        r.deep_view() == spec_manifest_value(manifest@, key@),
{
    let source = chars_of(manifest);
    let key_chars = chars_of(key);
    let n = source.len();
    let mut i: usize = 0;
    let mut start: usize = 0;
    let ghost mut done: Seq<Seq<char>> = seq![];
    assert(source@.skip(0) =~= source@);
    assert(source@.subrange(0, 0) =~= Seq::<char>::empty());
    while i < n
        invariant
            n == source@.len(),
            source@ == manifest@,
            key_chars@ == key@,
            start <= i <= n,
            lines_of(source@) == done + split_lines(source@.skip(i as int), source@.subrange(start as int, i as int)),
            first_value(lines_of(source@), key@) == first_value(
                split_lines(source@.skip(i as int), source@.subrange(start as int, i as int)),
                key@,
            ),
        decreases n - i,
    {
        let ghost cur = source@.subrange(start as int, i as int);
        let ghost rest = source@.skip(i as int);
        assert(rest.drop_first() =~= source@.skip(i + 1));
        if source[i] == '\n' {
            let mut end = i;
            if end > start && source[end - 1] == '\r' {
                end = end - 1;
            }
            assert(source@.subrange(start as int, end as int) =~= strip_cr(cur));
            let ghost tail = split_lines(source@.skip(i + 1), seq![]);
            assert(split_lines(rest, cur) =~= seq![strip_cr(cur)] + tail);
            assert((seq![strip_cr(cur)] + tail).drop_first() =~= tail);
            let found = value_in_line(&source, start, end, &key_chars);
            if found.is_some() {
                assert((seq![strip_cr(cur)] + tail)[0] == strip_cr(cur));
                assert(first_value(seq![strip_cr(cur)] + tail, key@) == found.deep_view());
                return found;
            }
            assert(first_value(seq![strip_cr(cur)] + tail, key@) == first_value(tail, key@));
            proof {
                done = done.push(strip_cr(cur));
                assert(source@.subrange((i + 1) as int, (i + 1) as int) =~= Seq::<char>::empty());
                assert(lines_of(source@) =~= done + split_lines(source@.skip(i + 1), seq![]));
            }
            i = i + 1;
            start = i;
        } else {
            assert(cur.push(source@[i as int]) =~= source@.subrange(start as int, i + 1));
            i = i + 1;
        }
    }
    let ghost cur = source@.subrange(start as int, n as int);
    assert(source@.skip(n as int) =~= Seq::<char>::empty());
    if start < n {
        assert(split_lines(source@.skip(n as int), cur) =~= seq![cur]);
        assert(seq![cur].drop_first() =~= Seq::<Seq<char>>::empty());
        let found = value_in_line(&source, start, n, &key_chars);
        assert(first_value(seq![cur], key@) == found.deep_view()) by {
            assert(seq![cur][0] == cur);
            assert(first_value(Seq::<Seq<char>>::empty(), key@) is None);
        }
        return found;
    }
    assert(split_lines(source@.skip(n as int), cur) =~= Seq::<Seq<char>>::empty());
    None
}

// ---------------------------------------------------------------------------
// Checking a whole manifest
// ---------------------------------------------------------------------------

/// `t` is quoted text: at least two characters, a `"` at each end.
pub open spec fn quoted(t: Seq<char>) -> bool {
    t.len() >= 2 && t[0] == '"' && t.last() == '"'
}

pub open spec fn ends_with(s: Seq<char>, suffix: Seq<char>) -> bool {
    s.len() >= suffix.len() && s.skip(s.len() - suffix.len()) == suffix
}

pub open spec fn not_a_setting(t: Seq<char>) -> Seq<char> {
    "guppty.toml: `"@ + t + "` is not a valid project setting."@
}

pub open spec fn needs_quotes(key: Seq<char>) -> Seq<char> {
    "guppty.toml: the project setting `"@ + key + "` needs its text in double quotes."@
}

pub open spec fn unknown_setting(key: Seq<char>) -> Seq<char> {
    "guppty.toml: `"@ + key + "` is not a known project setting; use name and entry."@
}

pub open spec fn not_gup(entry: Seq<char>) -> Seq<char> {
    "guppty.toml: the entry must be a .gup file, not `"@ + entry + "`."@
}

/// What is wrong with one manifest line, if anything. Blank lines and `#`
/// comments are fine, and so are the `[project]` header and `name = "..."` /
/// `entry = "..."` settings; any other header, a line that is not
/// `key = value`, an unknown key, or an unquoted value is not.
pub open spec fn line_problem(line: Seq<char>) -> Option<Seq<char>> {
    let t = trim(line);
    if t.len() == 0 || t[0] == '#' {
        None
    } else if t[0] == '[' {
        if t == "[project]"@ { None } else { Some(not_a_setting(t)) }
    } else {
        match index_of(t, '=', 0) {
            None => Some(not_a_setting(t)),
            Some(i) => {
                let key = trim(t.take(i));
                if key == "name"@ || key == "entry"@ {
                    if quoted(trim(t.skip(i + 1))) { None } else { Some(needs_quotes(key)) }
                } else {
                    Some(unknown_setting(key))
                }
            },
        }
    }
}

/// The problem of the first line that has one.
pub open spec fn first_problem(lines: Seq<Seq<char>>) -> Option<Seq<char>>
    decreases lines.len(),
{
    if lines.len() == 0 {
        None
    } else {
        match line_problem(lines[0]) {
            Some(p) => Some(p),
            None => first_problem(lines.drop_first()),
        }
    }
}

/// A manifest is accepted when no line has a problem and its entry, if it
/// names one, is a `.gup` file.
pub open spec fn spec_check_manifest(manifest: Seq<char>) -> Result<(), Seq<char>> {
    match first_problem(lines_of(manifest)) {
        Some(p) => Err(p),
        None => match spec_manifest_value(manifest, "entry"@) {
            Some(e) => if ends_with(e, ".gup"@) { Ok(()) } else { Err(not_gup(e)) },
            None => Ok(()),
        },
    }
}

/// Whether `v[from..to]` holds exactly the characters of `lit`.
fn range_is(v: &Vec<char>, from: usize, to: usize, lit: &str) -> (r: bool)
    requires
        from <= to <= v@.len(),
    ensures
        r == (v@.subrange(from as int, to as int) == lit@),
{
    let w = chars_of(lit);
    if to - from != w.len() {
        return false;
    }
    let mut k: usize = 0;
    while k < w.len()
        invariant
            to - from == w@.len(),
            from <= to <= v@.len(),
            w@ == lit@,
            k <= w@.len(),
            forall|m: int| 0 <= m < k ==> v@[from + m] == w@[m],
        decreases w@.len() - k,
    {
        if v[from + k] != w[k] {
            assert(v@.subrange(from as int, to as int)[k as int] != lit@[k as int]);
            return false;
        }
        k = k + 1;
    }
    assert(v@.subrange(from as int, to as int) =~= lit@);
    true
}

/// `"`before`" + v[from..to] + "`after`"`.
fn message_around(before: &str, v: &Vec<char>, from: usize, to: usize, after: &str) -> (m: String)
    requires
        from <= to <= v@.len(),
    ensures
        m@ == before@ + v@.subrange(from as int, to as int) + after@,
{
    let mut m = String::from_str(before);
    push_chars(&mut m, v, from, to);
    m.append(after);
    m
}

/// What is wrong with the line `v[from..to]`, as `line_problem` says.
fn problem_in_line(v: &Vec<char>, from: usize, to: usize) -> (r: Option<String>)
    requires
        from <= to <= v@.len(),
    ensures
        r.deep_view() == line_problem(v@.subrange(from as int, to as int)),
{
    let ghost line = v@.subrange(from as int, to as int);
    let (a, b) = trimmed_bounds(v, from, to, false);
    let ghost t = v@.subrange(a as int, b as int);
    if a == b || v[a] == '#' {
        return None;
    }
    assert(t[0] == v@[a as int]);
    if v[a] == '[' {
        if range_is(v, a, b, "[project]") {
            return None;
        }
        return Some(message_around("guppty.toml: `", v, a, b, "` is not a valid project setting."));
    }
    let mut i = a;
    while i < b && v[i] != '='
        invariant
            a <= i <= b <= v@.len(),
            t == v@.subrange(a as int, b as int),
            index_of(t, '=', i - a) == index_of(t, '=', 0),
        decreases b - i,
    {
        i = i + 1;
    }
    if i == b {
        return Some(message_around("guppty.toml: `", v, a, b, "` is not a valid project setting."));
    }
    assert(t.take(i - a) =~= v@.subrange(a as int, i as int));
    assert(t.skip(i - a + 1) =~= v@.subrange(i + 1, b as int));
    let (c, d) = trimmed_bounds(v, a, i, false);
    if range_is(v, c, d, "name") || range_is(v, c, d, "entry") {
        let (e, f) = trimmed_bounds(v, i + 1, b, false);
        let ok = f - e >= 2 && v[e] == '"' && v[f - 1] == '"';
        proof {
            let value = v@.subrange(e as int, f as int);
            if f - e >= 2 {
                assert(value[0] == v@[e as int]);
                assert(value.last() == v@[f - 1]);
            }
        }
        if ok {
            return None;
        }
        return Some(message_around("guppty.toml: the project setting `", v, c, d, "` needs its text in double quotes."));
    }
    Some(message_around("guppty.toml: `", v, c, d, "` is not a known project setting; use name and entry."))
}

/// Whether `s` ends with `suffix`.
fn str_ends_with(s: &str, suffix: &str) -> (r: bool)
    ensures
        r == ends_with(s@, suffix@),
{
    let v = chars_of(s);
    let w = chars_of(suffix);
    if v.len() < w.len() {
        return false;
    }
    let start = v.len() - w.len();
    let r = range_is(&v, start, v.len(), suffix);
    assert(v@.skip(start as int) =~= v@.subrange(start as int, v@.len() as int));
    r
}

/// The first problem among the lines of `v` (see `first_problem`).
fn first_problem_from(v: &Vec<char>) -> (r: Option<String>)
    ensures
        r.deep_view() == first_problem(lines_of(v@)),
{
    let n = v.len();
    let mut i: usize = 0;
    let mut start: usize = 0;
    let ghost mut done: Seq<Seq<char>> = seq![];
    assert(v@.skip(0) =~= v@);
    assert(v@.subrange(0, 0) =~= Seq::<char>::empty());
    while i < n
        invariant
            n == v@.len(),
            start <= i <= n,
            first_problem(lines_of(v@)) == first_problem(
                split_lines(v@.skip(i as int), v@.subrange(start as int, i as int)),
            ),
        decreases n - i,
    {
        let ghost cur = v@.subrange(start as int, i as int);
        let ghost rest = v@.skip(i as int);
        assert(rest.drop_first() =~= v@.skip(i + 1));
        if v[i] == '\n' {
            let mut end = i;
            if end > start && v[end - 1] == '\r' {
                end = end - 1;
            }
            assert(v@.subrange(start as int, end as int) =~= strip_cr(cur));
            let ghost tail = split_lines(v@.skip(i + 1), seq![]);
            assert(split_lines(rest, cur) =~= seq![strip_cr(cur)] + tail);
            assert((seq![strip_cr(cur)] + tail).drop_first() =~= tail);
            assert((seq![strip_cr(cur)] + tail)[0] == strip_cr(cur));
            let found = problem_in_line(v, start, end);
            if found.is_some() {
                return found;
            }
            proof {
                assert(v@.subrange((i + 1) as int, (i + 1) as int) =~= Seq::<char>::empty());
            }
            i = i + 1;
            start = i;
        } else {
            assert(cur.push(v@[i as int]) =~= v@.subrange(start as int, i + 1));
            i = i + 1;
        }
    }
    let ghost cur = v@.subrange(start as int, n as int);
    assert(v@.skip(n as int) =~= Seq::<char>::empty());
    if start < n {
        assert(split_lines(v@.skip(n as int), cur) =~= seq![cur]);
        assert(seq![cur].drop_first() =~= Seq::<Seq<char>>::empty());
        let found = problem_in_line(v, start, n);
        assert(first_problem(seq![cur]) == found.deep_view()) by {
            assert(seq![cur][0] == cur);
            assert(first_problem(Seq::<Seq<char>>::empty()) is None);
        }
        return found;
    }
    assert(split_lines(v@.skip(n as int), cur) =~= Seq::<Seq<char>>::empty());
    None
}

/// Checks a whole `guppty.toml` before any of its settings is used: every
/// line is blank, a `#` comment, the `[project]` header, or a quoted `name`
/// or `entry` setting, and the entry names a `.gup` file. Each message names
/// `guppty.toml` and what is wrong.
pub fn check_manifest(manifest: &str) -> (r: Result<(), String>)
    ensures
        match spec_check_manifest(manifest@) {
            Ok(()) => r is Ok,
            Err(m) => r matches Err(x) && x@ == m,
        },
{
    let v = chars_of(manifest);
    match first_problem_from(&v) {
        Some(p) => return Err(p),
        None => {},
    }
    match manifest_value(manifest, "entry") {
        Some(entry) => {
            if str_ends_with(entry.as_str(), ".gup") {
                Ok(())
            } else {
                let mut m = String::from_str("guppty.toml: the entry must be a .gup file, not `");
                m.append(entry.as_str());
                m.append("`.");
                Err(m)
            }
        },
        None => Ok(()),
    }
}

// ---------------------------------------------------------------------------
// A new project's files
// ---------------------------------------------------------------------------

/// The `guppty.toml` a new project named `name` starts with.
pub open spec fn spec_manifest_text(name: Seq<char>) -> Seq<char> {
    "[project]\nname = \""@ + name + "\"\nentry = \"src/main.gup\"\n"@
}

/// The program a new project named `name` starts with.
pub open spec fn spec_starter_program(name: Seq<char>) -> Seq<char> {
    "// Welcome to "@ + name + "!\nmessage = \"Hello from "@ + name + "!\"\nout(message)\n"@
}

/// The manifest of a new project.
pub fn manifest_text(name: &str) -> (m: String)
    ensures
        m@ == spec_manifest_text(name@),
{
    let mut m = String::from_str("[project]\nname = \"");
    m.append(name);
    m.append("\"\nentry = \"src/main.gup\"\n");
    m
}

/// The first program of a new project: it greets from the project.
pub fn starter_program(name: &str) -> (p: String)
    ensures
        p@ == spec_starter_program(name@),
{
    let mut p = String::from_str("// Welcome to ");
    p.append(name);
    p.append("!\nmessage = \"Hello from ");
    p.append(name);
    p.append("!\"\nout(message)\n");
    p
}

proof fn lemma_split_first_line(a: Seq<char>, rest: Seq<char>, cur: Seq<char>)
    requires
        forall|i: int| 0 <= i < a.len() ==> a[i] != '\n',
    ensures
        split_lines(a + seq!['\n'] + rest, cur) == seq![strip_cr(cur + a)] + split_lines(rest, seq![]),
    decreases a.len(),
{
    let s = a + seq!['\n'] + rest;
    if a.len() == 0 {
        assert(s =~= seq!['\n'] + rest);
        assert(s.drop_first() =~= rest);
        assert(cur + a =~= cur);
    } else {
        assert(s[0] == a[0]);
        assert(s.drop_first() =~= a.drop_first() + seq!['\n'] + rest);
        lemma_split_first_line(a.drop_first(), rest, cur.push(a[0]));
        assert(cur.push(a[0]) + a.drop_first() =~= cur + a);
    }
}

proof fn lemma_trim_unchanged(s: Seq<char>)
    requires
        s.len() > 0,
        !spec_is_whitespace(s[0]),
        !spec_is_whitespace(s.last()),
    ensures
        trim(s) == s,
{
}

proof fn lemma_index_of_first(s: Seq<char>, c: char, k: int, i: int)
    requires
        0 <= i <= k < s.len(),
        s[k] == c,
        forall|j: int| 0 <= j < k ==> s[j] != c,
    ensures
        index_of(s, c, i) == Some(k),
    decreases k - i,
{
    if i < k {
        lemma_index_of_first(s, c, k, i + 1);
    }
}

/// The parts of a `key = "value"` line as a new manifest writes it.
proof fn lemma_setting_line(key: Seq<char>, value: Seq<char>)
    requires
        key.len() > 0,
        forall|i: int| 0 <= i < key.len() ==> 'a' <= #[trigger] key[i] <= 'z',
        value.len() > 0,
        forall|i: int| 0 <= i < value.len() ==> is_name_char(#[trigger] value[i]) || value[i] == '/' || value[i] == '.',
    ensures
        ({
            let line = key + " = \""@ + value + "\""@;
            &&& trim(line) == line
            &&& index_of(line, '=', 0) == Some(key.len() + 1int)
            &&& trim(line.take(key.len() + 1int)) == key
            &&& trim(line.skip(key.len() + 2int)) == seq!['"'] + value + seq!['"']
            &&& trim_quotes(trim(line.skip(key.len() + 2int))) == value
            &&& line[0] != '#' && line[0] != '['
            &&& forall|i: int| 0 <= i < line.len() ==> line[i] != '\n'
        }),
{
    reveal_strlit(" = \"");
    reveal_strlit("\"");
    let line = key + " = \""@ + value + "\""@;
    let n = key.len() as int;
    assert(line[0] == key[0]);
    assert(line.last() == '"');
    lemma_trim_unchanged(line);
    assert(line[n + 1] == '=');
    lemma_index_of_first(line, '=', n + 1, 0);
    let head = line.take(n + 1);
    assert(head.drop_last() =~= key);
    assert(head.last() == ' ');
    assert(key.last() == key[key.len() - 1]);
    assert(trim_end_by(key, |c: char| spec_is_whitespace(c)) == key);
    assert(trim_end_by(head, |c: char| spec_is_whitespace(c)) == key);
    assert(head[0] == key[0]);
    assert(trim(head) == key);
    let tail = line.skip(n + 2);
    let quoted_value = seq!['"'] + value + seq!['"'];
    assert(tail.drop_first() =~= quoted_value);
    assert(tail[0] == ' ');
    assert(quoted_value[0] == '"');
    assert(trim_start_by(quoted_value, |c: char| spec_is_whitespace(c)) == quoted_value);
    assert(trim_start_by(tail, |c: char| spec_is_whitespace(c)) == quoted_value);
    assert(trim_end_by(quoted_value, |c: char| spec_is_whitespace(c)) == quoted_value);
    assert(quoted_value.drop_first() =~= value + seq!['"']);
    assert(is_name_char(value[0]) || value[0] == '/' || value[0] == '.');
    assert((value + seq!['"'])[0] == value[0]);
    assert(trim_start_by(value + seq!['"'], |c: char| c == '"') == value + seq!['"']);
    assert(is_name_char(value[value.len() - 1]) || value[value.len() - 1] == '/' || value[value.len() - 1] == '.');
    assert(value.last() == value[value.len() - 1]);
    assert(trim_end_by(value, |c: char| c == '"') == value);
    assert(trim_start_by(quoted_value, |c: char| c == '"') == value + seq!['"']);
    assert((value + seq!['"']).drop_last() =~= value);
    assert(trim_end_by(value + seq!['"'], |c: char| c == '"') == value);
    assert forall|i: int| 0 <= i < line.len() implies line[i] != '\n' by {
        if i < n {
            assert(line[i] == key[i]);
        } else if i >= n + 4 && i < n + 4 + value.len() {
            assert(line[i] == value[i - n - 4]);
        }
    }
}

proof fn lemma_index_of_none(s: Seq<char>, c: char, i: int)
    requires
        0 <= i,
        forall|j: int| i <= j < s.len() ==> s[j] != c,
    ensures
        index_of(s, c, i) is None,
    decreases s.len() - i,
{
    if i < s.len() {
        lemma_index_of_none(s, c, i + 1);
    }
}

/// What `guppty new` writes, `guppty run` accepts and reads back: for every
/// valid project name, the new manifest passes `check_manifest`, its `name`
/// reads back as that name, and its `entry` as `src/main.gup`.
pub proof fn lemma_new_manifest_reads_back(name: Seq<char>)
    requires
        valid_project_name(name),
    ensures
        spec_check_manifest(spec_manifest_text(name)) is Ok,
        spec_manifest_value(spec_manifest_text(name), "name"@) == Some(name),
        spec_manifest_value(spec_manifest_text(name), "entry"@) == Some("src/main.gup"@),
{
    reveal_strlit("[project]\nname = \"");
    reveal_strlit("\"\nentry = \"src/main.gup\"\n");
    reveal_strlit("[project]");
    reveal_strlit("name");
    reveal_strlit("entry");
    reveal_strlit(" = \"");
    reveal_strlit("\"");
    reveal_strlit("src/main.gup");
    reveal_strlit(".gup");
    let l1 = "[project]"@;
    let l2 = "name"@ + " = \""@ + name + "\""@;
    let entry = "src/main.gup"@;
    let l3 = "entry"@ + " = \""@ + entry + "\""@;
    let m = spec_manifest_text(name);
    let nl = seq!['\n'];
    assert(m =~= l1 + nl + (l2 + nl + (l3 + nl + Seq::<char>::empty())));
    assert forall|i: int| 0 <= i < entry.len() implies is_name_char(#[trigger] entry[i]) || entry[i] == '/'
        || entry[i] == '.' by {}
    lemma_setting_line("name"@, name);
    lemma_setting_line("entry"@, entry);
    lemma_split_first_line(l3, Seq::<char>::empty(), seq![]);
    lemma_split_first_line(l2, l3 + nl + Seq::<char>::empty(), seq![]);
    lemma_split_first_line(l1, l2 + nl + (l3 + nl + Seq::<char>::empty()), seq![]);
    assert(Seq::<char>::empty() + l1 =~= l1);
    assert(Seq::<char>::empty() + l2 =~= l2);
    assert(Seq::<char>::empty() + l3 =~= l3);
    assert(strip_cr(l1) == l1);
    assert(strip_cr(l2) == l2);
    assert(strip_cr(l3) == l3);
    let lines = lines_of(m);
    assert(lines =~= seq![l1, l2, l3]);
    // The header line.
    lemma_trim_unchanged(l1);
    assert(line_problem(l1) is None);
    lemma_index_of_none(l1, '=', 0);
    assert(line_value(l1, "name"@) is None);
    assert(line_value(l1, "entry"@) is None);
    // The two settings.
    assert(line_problem(l2) is None);
    assert(line_problem(l3) is None);
    assert("name"@ != "entry"@);
    assert(line_value(l2, "name"@) == Some(name));
    assert(line_value(l2, "entry"@) is None);
    assert(line_value(l3, "entry"@) == Some(entry));
    assert(lines.drop_first() =~= seq![l2, l3]);
    assert(seq![l2, l3].drop_first() =~= seq![l3]);
    assert(seq![l3].drop_first() =~= Seq::<Seq<char>>::empty());
    assert(first_problem(Seq::<Seq<char>>::empty()) is None);
    assert(seq![l3][0] == l3);
    assert(first_problem(seq![l3]) is None);
    assert(seq![l2, l3][0] == l2);
    assert(first_problem(seq![l2, l3]) is None);
    assert(lines[0] == l1);
    assert(first_problem(lines) is None);
    assert(first_value(seq![l2, l3], "name"@) == Some(name));
    assert(first_value(lines, "name"@) == Some(name));
    assert(first_value(seq![l3], "entry"@) == Some(entry));
    assert(first_value(seq![l2, l3], "entry"@) == Some(entry));
    assert(first_value(lines, "entry"@) == Some(entry));
    assert(entry.skip(8) =~= ".gup"@);
}

// ---------------------------------------------------------------------------
// Showing where a build went
// ---------------------------------------------------------------------------

/// How a built executable is shown for running it: a relative path of two
/// parts (such as `build/app`) gets a leading `./`, so that a shell runs it
/// from the current folder; any other path is shown as it is.
pub open spec fn spec_display_executable_path(components: usize, absolute: bool, text: Seq<char>) -> Seq<char> {
    if components == 2 && !absolute {
        "./"@ + text
    } else {
        text
    }
}

/// The path to show for running a built executable, given how many parts
/// the path has, whether it is absolute, and its text.
pub fn display_executable_path(components: usize, absolute: bool, text: &str) -> (r: String)
    ensures
        r@ == spec_display_executable_path(components, absolute, text@),
{
    if components == 2 && !absolute {
        let mut r = String::from_str("./");
        r.append(text);
        r
    } else {
        String::from_str(text)
    }
}

// ---------------------------------------------------------------------------
// Command lines
// ---------------------------------------------------------------------------

pub open spec fn starts_with_dash(s: Seq<char>) -> bool {
    s.len() > 0 && s[0] == '-'
}

pub open spec fn is_flag(flags: Seq<Seq<char>>, s: Seq<char>) -> bool {
    exists|j: int| 0 <= j < flags.len() && flags[j] == s
}

/// Whether an argument names something: no leading `-`, and not a known flag.
pub open spec fn is_positional(flags: Seq<Seq<char>>, s: Seq<char>) -> bool {
    !starts_with_dash(s) && !is_flag(flags, s)
}

/// The first positional argument after the command word, from index `i`.
pub open spec fn first_positional(args: Seq<Seq<char>>, flags: Seq<Seq<char>>, i: int) -> Option<Seq<char>>
    decreases args.len() - i,
{
    if !(0 <= i < args.len()) {
        None
    } else if is_positional(flags, args[i]) {
        Some(args[i])
    } else {
        first_positional(args, flags, i + 1)
    }
}

/// The first argument after the command that is not an option or one of `flags`.
pub fn positional_after_command(args: &Vec<String>, flags: &Vec<&str>) -> (r: Option<String>)
    ensures
        r.deep_view() == first_positional(args.deep_view(), flags.deep_view(), 1),
{
    let mut i: usize = 1;
    while i < args.len()
        invariant
            1 <= i,
            first_positional(args.deep_view(), flags.deep_view(), i as int) == first_positional(
                args.deep_view(),
                flags.deep_view(),
                1,
            ),
        decreases args.len() - i,
    {
        let arg = args[i].as_str();
        let text = chars_of(arg);
        assert(args.deep_view()[i as int] == args@[i as int]@);
        let dash = text.len() > 0 && text[0] == '-';
        let mut listed = false;
        let mut j: usize = 0;
        while j < flags.len()
            invariant
                listed == exists|k: int| 0 <= k < j && flags.deep_view()[k] == arg@,
                j <= flags@.len(),
            decreases flags@.len() - j,
        {
            assert(flags.deep_view()[j as int] == flags@[j as int]@);
            if crate::text::str_eq(flags[j], arg) {
                listed = true;
            }
            j = j + 1;
        }
        if !dash && !listed {
            return Some(args[i].clone());
        }
        i = i + 1;
    }
    None
}

} // verus!
