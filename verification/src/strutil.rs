//! Small verified string utilities: the first whitespace-delimited token of a
//! launch command, and the file stem of a path. Both are specified exactly
//! over character sequences.

use vstd::prelude::*;
use vstd::string::*;

verus! {

/// The characters of a string as an indexable vector.
pub fn chars_of(s: &str) -> (v: Vec<char>)
    ensures
        v@ == s@,
{
    let n = s.unicode_len();
    let mut v: Vec<char> = Vec::new();
    let mut i: usize = 0;
    while i < n
        invariant
            0 <= i <= n,
            n == s@.len(),
            v@ == s@.take(i as int),
        decreases n - i,
    {
        v.push(s.get_char(i));
        i = i + 1;
        proof {
            assert(v@ =~= s@.take(i as int));
        }
    }
    proof {
        assert(s@.take(n as int) =~= s@);
    }
    v
}

/// Character-wise string equality.
pub fn str_eq(a: &str, b: &str) -> (r: bool)
    ensures
        r == (a@ == b@),
{
    let na = a.unicode_len();
    let nb = b.unicode_len();
    if na != nb {
        proof {
            assert(a@.len() != b@.len());
        }
        return false;
    }
    let mut i: usize = 0;
    while i < na
        invariant
            0 <= i <= na,
            na == a@.len(),
            na == b@.len(),
            forall|t: int| 0 <= t < i ==> a@[t] == b@[t],
        decreases na - i,
    {
        if a.get_char(i) != b.get_char(i) {
            return false;
        }
        i = i + 1;
    }
    proof {
        assert(a@ =~= b@);
    }
    true
}

/// ASCII whitespace, the delimiters of a launch command's tokens.
pub open spec fn is_space(c: char) -> bool {
    c == ' ' || c == '\t' || c == '\n' || c == '\r'
}

fn space_char(c: char) -> (r: bool)
    ensures
        r == is_space(c),
{
    c == ' ' || c == '\t' || c == '\n' || c == '\r'
}

/// The first index at or after `i` holding a non-space character, or the
/// length of `s` if spaces run to the end.
pub open spec fn skip_spaces(s: Seq<char>, i: int) -> int
    decreases s.len() - i,
{
    if i < 0 || i >= s.len() {
        s.len() as int
    } else if is_space(s[i]) {
        skip_spaces(s, i + 1)
    } else {
        i
    }
}

/// The first index at or after `i` holding a space, or the length of `s`.
pub open spec fn token_end(s: Seq<char>, i: int) -> int
    decreases s.len() - i,
{
    if i < 0 || i >= s.len() {
        s.len() as int
    } else if is_space(s[i]) {
        i
    } else {
        token_end(s, i + 1)
    }
}

pub proof fn lemma_skip_spaces_bounds(s: Seq<char>, i: int)
    requires
        0 <= i <= s.len(),
    ensures
        i <= skip_spaces(s, i) <= s.len(),
        skip_spaces(s, i) < s.len() ==> !is_space(s[skip_spaces(s, i)]),
    decreases s.len() - i,
{
    if i < s.len() && is_space(s[i]) {
        lemma_skip_spaces_bounds(s, i + 1);
    }
}

pub proof fn lemma_token_end_bounds(s: Seq<char>, i: int)
    requires
        0 <= i <= s.len(),
    ensures
        i <= token_end(s, i) <= s.len(),
    decreases s.len() - i,
{
    if i < s.len() && !is_space(s[i]) {
        lemma_token_end_bounds(s, i + 1);
    }
}

/// The first whitespace-delimited token of `s`: the maximal run of non-space
/// characters starting at the first non-space position. `None` when `s` holds
/// only spaces (or nothing).
pub open spec fn spec_first_token(s: Seq<char>) -> Option<Seq<char>> {
    let a = skip_spaces(s, 0);
    let b = token_end(s, a);
    if a == b {
        None
    } else {
        Some(s.subrange(a, b))
    }
}

/// The executable token of a launch command: its first whitespace-delimited
/// token. Arguments and placeholder tokens after it are discarded, never
/// expanded. Returns `None` exactly when the command holds no token at all.
pub fn first_token(s: &str) -> (r: Option<String>)
    ensures
        match r {
            Some(t) => spec_first_token(s@) == Some(t@),
            None => spec_first_token(s@) is None,
        },
{
    let n = s.unicode_len();
    let mut a: usize = 0;
    while a < n && space_char(s.get_char(a))
        invariant
            0 <= a <= n,
            n == s@.len(),
            skip_spaces(s@, 0) == skip_spaces(s@, a as int),
        decreases n - a,
    {
        a = a + 1;
    }
    proof {
        lemma_skip_spaces_bounds(s@, a as int);
        assert(skip_spaces(s@, a as int) == a as int);
    }
    if a == n {
        proof {
            lemma_token_end_bounds(s@, a as int);
        }
        return None;
    }
    let mut b: usize = a;
    while b < n && !space_char(s.get_char(b))
        invariant
            a <= b <= n,
            n == s@.len(),
            token_end(s@, a as int) == token_end(s@, b as int),
        decreases n - b,
    {
        b = b + 1;
    }
    proof {
        lemma_token_end_bounds(s@, b as int);
        assert(token_end(s@, b as int) == b as int);
    }
    let token = s.substring_char(a, b);
    Some(token.to_owned())
}

/// The last index at or below `i` where `s` holds `c`, or `-1` if there is
/// none.
pub open spec fn last_index_of(s: Seq<char>, c: char, i: int) -> int
    decreases i + 1,
{
    if i < 0 {
        -1
    } else if i >= s.len() {
        last_index_of(s, c, s.len() - 1)
    } else if s[i] == c {
        i
    } else {
        last_index_of(s, c, i - 1)
    }
}

pub proof fn lemma_last_index_of_bounds(s: Seq<char>, c: char, i: int)
    requires
        -1 <= i < s.len(),
    ensures
        -1 <= last_index_of(s, c, i) <= i,
        last_index_of(s, c, i) >= 0 ==> s[last_index_of(s, c, i)] == c,
    decreases i + 1,
{
    if i >= 0 && s[i] != c {
        lemma_last_index_of_bounds(s, c, i - 1);
    }
}

/// The part of a path after its last `/` (the whole path when it has none).
pub open spec fn spec_base_name(s: Seq<char>) -> Seq<char> {
    s.subrange(last_index_of(s, '/', s.len() - 1) + 1, s.len() as int)
}

/// The file stem of a path: its base name without the extension after the
/// last dot, where a dot at the very start of the base name (a hidden file)
/// does not begin an extension. `None` exactly when the base name is empty.
pub open spec fn spec_file_stem(s: Seq<char>) -> Option<Seq<char>> {
    let name = spec_base_name(s);
    if name.len() == 0 {
        None
    } else {
        let d = last_index_of(name, '.', name.len() - 1);
        if d > 0 {
            Some(name.subrange(0, d))
        } else {
            Some(name)
        }
    }
}

/// A path's file stem, when it has one, is never empty.
pub proof fn lemma_file_stem_nonempty(s: Seq<char>)
    requires
        spec_file_stem(s) is Some,
    ensures
        spec_file_stem(s)->Some_0.len() > 0,
{
    let name = spec_base_name(s);
    lemma_last_index_of_bounds(s, '/', s.len() - 1);
    let d = last_index_of(name, '.', name.len() - 1);
    if name.len() > 0 {
        lemma_last_index_of_bounds(name, '.', name.len() - 1);
    }
}

/// The file stem of `s`, per [`spec_file_stem`].
pub fn file_stem(s: &str) -> (r: Option<String>)
    ensures
        match r {
            Some(t) => spec_file_stem(s@) == Some(t@),
            None => spec_file_stem(s@) is None,
        },
{
    let n = s.unicode_len();
    // Find the last '/' by scanning down from the end.
    let mut i: usize = n;
    while i > 0 && s.get_char(i - 1) != '/'
        invariant
            0 <= i <= n,
            n == s@.len(),
            last_index_of(s@, '/', n - 1) == last_index_of(s@, '/', i - 1),
        decreases i,
    {
        i = i - 1;
    }
    // Here `i - 1` is the last '/' (or `i == 0` and there is none): the base
    // name starts at `i`.
    let start = i;
    proof {
        if start > 0 {
            assert(last_index_of(s@, '/', start - 1) == start - 1);
        }
        assert(last_index_of(s@, '/', n - 1) == start - 1);
        assert(spec_base_name(s@) == s@.subrange(start as int, n as int));
    }
    if start == n {
        return None;
    }
    let ghost name = spec_base_name(s@);
    // Find the last '.' of the base name the same way.
    let mut j: usize = n;
    while j > start && s.get_char(j - 1) != '.'
        invariant
            start <= j <= n,
            n == s@.len(),
            name == s@.subrange(start as int, n as int),
            last_index_of(name, '.', name.len() - 1) == last_index_of(name, '.', j - start - 1),
        decreases j,
    {
        proof {
            assert(name[j - start - 1] == s@[j - 1]);
        }
        j = j - 1;
    }
    proof {
        if j > start {
            assert(name[j - start - 1] == s@[j - 1]);
            assert(last_index_of(name, '.', j - start - 1) == j - start - 1);
        }
        assert(last_index_of(name, '.', name.len() - 1) == j - start - 1);
    }
    if j > start + 1 {
        // A dot past the first character of the base name begins an extension.
        let stem = s.substring_char(start, j - 1);
        proof {
            assert(name.subrange(0, j - start - 1) =~= s@.subrange(start as int, j - 1));
        }
        Some(stem.to_owned())
    } else {
        let stem = s.substring_char(start, n);
        proof {
            assert(name =~= s@.subrange(start as int, n as int));
        }
        Some(stem.to_owned())
    }
}

} // verus!
