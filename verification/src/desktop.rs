//! A verified reader for the section-keyed key/value text format of desktop
//! descriptor files: lines of `Key=Value` grouped under `[Section]` headers,
//! with `#`/`;` comment lines ignored and ASCII whitespace trimmed around
//! section-relative keys and values. The one operation the scanner needs is
//! the lookup of a key's first value inside a named section.

use vstd::prelude::*;
use vstd::string::*;

use crate::strutil::chars_of;

verus! {

/// Whitespace inside a line (a trailing carriage return counts too).
pub open spec fn is_line_space(c: char) -> bool {
    c == ' ' || c == '\t' || c == '\r'
}

fn line_space_char(c: char) -> (r: bool)
    ensures
        r == is_line_space(c),
{
    c == ' ' || c == '\t' || c == '\r'
}

/// The index of the line break at or after `i`, or the text's length.
pub open spec fn line_end(s: Seq<char>, i: int) -> int
    decreases s.len() - i,
{
    if i < 0 || i >= s.len() {
        s.len() as int
    } else if s[i] == '\n' {
        i
    } else {
        line_end(s, i + 1)
    }
}

/// The first non-space index in `[lo, hi)`, or `hi`.
pub open spec fn ws_start(s: Seq<char>, lo: int, hi: int) -> int
    decreases hi - lo,
{
    if lo < 0 || lo >= hi {
        hi
    } else if is_line_space(s[lo]) {
        ws_start(s, lo + 1, hi)
    } else {
        lo
    }
}

/// The end of `[lo, hi)` with trailing spaces dropped (not below `lo`).
pub open spec fn ws_end(s: Seq<char>, lo: int, hi: int) -> int
    decreases hi - lo,
{
    if hi <= lo {
        lo
    } else if is_line_space(s[hi - 1]) {
        ws_end(s, lo, hi - 1)
    } else {
        hi
    }
}

/// The first index of `c` in `[lo, hi)`, or `hi`.
pub open spec fn find_char(s: Seq<char>, lo: int, hi: int, c: char) -> int
    decreases hi - lo,
{
    if lo < 0 || lo >= hi {
        hi
    } else if s[lo] == c {
        lo
    } else {
        find_char(s, lo + 1, hi, c)
    }
}

pub proof fn lemma_line_end_bounds(s: Seq<char>, i: int)
    requires
        0 <= i <= s.len(),
    ensures
        i <= line_end(s, i) <= s.len(),
    decreases s.len() - i,
{
    if i < s.len() && s[i] != '\n' {
        lemma_line_end_bounds(s, i + 1);
    }
}

/// The value of the first `key=...` entry line inside the first-reached run
/// of lines under a `[section]` header, scanning from position `i` with
/// `in_sec` saying whether the lines before `i` put us inside the wanted
/// section. Header lines switch the section; comment lines (first non-space
/// `#` or `;`), blank lines and lines without `=` are ignored; keys and
/// values are trimmed of surrounding spaces.
pub open spec fn find_value_from(
    s: Seq<char>,
    i: int,
    in_sec: bool,
    section: Seq<char>,
    key: Seq<char>,
) -> Option<Seq<char>>
    decreases s.len() - i,
    via find_value_from_decreases
{
    if i < 0 || i >= s.len() {
        None
    } else {
        let j = line_end(s, i);
        let a = ws_start(s, i, j);
        let b = ws_end(s, a, j);
        let next = if j >= s.len() {
            s.len() as int
        } else {
            j + 1
        };
        if a < b && s[a] == '[' && s[b - 1] == ']' {
            find_value_from(s, next, s.subrange(a + 1, b - 1) == section, section, key)
        } else if in_sec && a < b && s[a] != '#' && s[a] != ';' {
            let eq = find_char(s, a, b, '=');
            if eq < b && {
                let ka = ws_start(s, a, eq);
                let kb = ws_end(s, ka, eq);
                s.subrange(ka, kb) == key
            } {
                let va = ws_start(s, eq + 1, b);
                let vb = ws_end(s, va, b);
                Some(s.subrange(va, vb))
            } else {
                find_value_from(s, next, in_sec, section, key)
            }
        } else {
            find_value_from(s, next, in_sec, section, key)
        }
    }
}

#[via_fn]
proof fn find_value_from_decreases(
    s: Seq<char>,
    i: int,
    in_sec: bool,
    section: Seq<char>,
    key: Seq<char>,
) {
    if 0 <= i < s.len() {
        lemma_line_end_bounds(s, i);
    }
}

/// The value the descriptor format gives `key` inside `[section]`, or `None`
/// when the text has no such entry.
pub open spec fn spec_lookup(text: Seq<char>, section: Seq<char>, key: Seq<char>) -> Option<
    Seq<char>,
> {
    find_value_from(text, 0, false, section, key)
}

fn line_end_exec(v: &Vec<char>, i: usize) -> (j: usize)
    requires
        i <= v.len(),
    ensures
        j == line_end(v@, i as int),
        i <= j <= v.len(),
{
    let mut j = i;
    while j < v.len() && v[j] != '\n'
        invariant
            i <= j <= v.len(),
            line_end(v@, i as int) == line_end(v@, j as int),
        decreases v.len() - j,
    {
        j = j + 1;
    }
    proof {
        assert(line_end(v@, j as int) == j as int);
    }
    j
}

fn ws_start_exec(v: &Vec<char>, lo: usize, hi: usize) -> (a: usize)
    requires
        lo <= hi <= v.len(),
    ensures
        a == ws_start(v@, lo as int, hi as int),
        lo <= a <= hi,
{
    let mut a = lo;
    while a < hi && line_space_char(v[a])
        invariant
            lo <= a <= hi <= v.len(),
            ws_start(v@, lo as int, hi as int) == ws_start(v@, a as int, hi as int),
        decreases hi - a,
    {
        a = a + 1;
    }
    proof {
        assert(ws_start(v@, a as int, hi as int) == a as int);
    }
    a
}

fn ws_end_exec(v: &Vec<char>, lo: usize, hi: usize) -> (b: usize)
    requires
        lo <= hi <= v.len(),
    ensures
        b == ws_end(v@, lo as int, hi as int),
        lo <= b <= hi,
{
    let mut b = hi;
    while b > lo && line_space_char(v[b - 1])
        invariant
            lo <= b <= hi <= v.len(),
            ws_end(v@, lo as int, hi as int) == ws_end(v@, lo as int, b as int),
        decreases b,
    {
        b = b - 1;
    }
    proof {
        assert(ws_end(v@, lo as int, b as int) == b as int);
    }
    b
}

fn find_char_exec(v: &Vec<char>, lo: usize, hi: usize, c: char) -> (e: usize)
    requires
        lo <= hi <= v.len(),
    ensures
        e == find_char(v@, lo as int, hi as int, c),
        lo <= e <= hi,
{
    let mut e = lo;
    while e < hi && v[e] != c
        invariant
            lo <= e <= hi <= v.len(),
            find_char(v@, lo as int, hi as int, c) == find_char(v@, e as int, hi as int, c),
        decreases hi - e,
    {
        e = e + 1;
    }
    proof {
        assert(find_char(v@, e as int, hi as int, c) == e as int);
    }
    e
}

/// Whether `v[lo..hi]` spells exactly `w`.
fn seq_eq_range(v: &Vec<char>, lo: usize, hi: usize, w: &Vec<char>) -> (r: bool)
    requires
        lo <= hi <= v.len(),
    ensures
        r == (v@.subrange(lo as int, hi as int) == w@),
{
    let ghost sub = v@.subrange(lo as int, hi as int);
    if hi - lo != w.len() {
        proof {
            assert(sub.len() != w@.len());
        }
        return false;
    }
    let mut k: usize = 0;
    while k < w.len()
        invariant
            0 <= k <= w.len(),
            lo + w.len() == hi,
            hi <= v.len(),
            sub == v@.subrange(lo as int, hi as int),
            forall|t: int| 0 <= t < k ==> v@[lo + t] == w@[t],
        decreases w.len() - k,
    {
        if v[lo + k] != w[k] {
            proof {
                assert(sub[k as int] == v@[lo + k as int]);
            }
            return false;
        }
        k = k + 1;
    }
    proof {
        assert(sub =~= w@);
    }
    true
}

/// Look `key` up inside `[section]` of the descriptor text, per
/// [`spec_lookup`]: `Some` of the first (trimmed) value the format gives it,
/// `None` exactly when the section has no such entry.
pub fn lookup_value(text: &str, section: &str, key: &str) -> (r: Option<String>)
    ensures
        match r {
            Some(v) => spec_lookup(text@, section@, key@) == Some(v@),
            None => spec_lookup(text@, section@, key@) is None,
        },
{
    let tv = chars_of(text);
    let sv = chars_of(section);
    let kv = chars_of(key);
    let ghost s = text@;
    let mut i: usize = 0;
    let mut in_sec = false;
    while i < tv.len()
        invariant
            0 <= i <= tv.len(),
            s == text@,
            tv@ == s,
            sv@ == section@,
            kv@ == key@,
            s.len() == tv.len(),
            spec_lookup(text@, section@, key@) == find_value_from(
                s,
                i as int,
                in_sec,
                section@,
                key@,
            ),
        decreases tv.len() - i,
    {
        let j = line_end_exec(&tv, i);
        let a = ws_start_exec(&tv, i, j);
        let b = ws_end_exec(&tv, a, j);
        let next = if j >= tv.len() {
            tv.len()
        } else {
            j + 1
        };
        if a < b && tv[a] == '[' && tv[b - 1] == ']' {
            in_sec = seq_eq_range(&tv, a + 1, b - 1, &sv);
        } else if in_sec && a < b && tv[a] != '#' && tv[a] != ';' {
            let eq = find_char_exec(&tv, a, b, '=');
            if eq < b {
                let ka = ws_start_exec(&tv, a, eq);
                let kb = ws_end_exec(&tv, ka, eq);
                if seq_eq_range(&tv, ka, kb, &kv) {
                    let va = ws_start_exec(&tv, eq + 1, b);
                    let vb = ws_end_exec(&tv, va, b);
                    let value = text.substring_char(va, vb);
                    return Some(value.to_owned());
                }
            }
        }
        i = next;
    }
    proof {
        assert(find_value_from(s, i as int, in_sec, section@, key@) is None);
    }
    None
}

} // verus!
