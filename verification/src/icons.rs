//! The icon resolver: given a symbolic icon token, find the first file among
//! the prioritized theme directories whose file stem equals the token
//! exactly, falling back to one fixed default image path. The walk results of
//! the theme directories are held as plain path lists, in priority order for
//! the themes and walk order within one theme, and lookups are memoized for
//! one build pass.

use vstd::prelude::*;
use vstd::string::*;

use crate::state::opt_view;
use crate::strutil::{file_stem, spec_file_stem, str_eq};

verus! {

/// The first file of one theme's walk whose stem is the token.
pub open spec fn spec_find_in_theme(files: Seq<Seq<char>>, token: Seq<char>) -> Option<Seq<char>>
    decreases files.len(),
{
    if files.len() == 0 {
        None
    } else if spec_file_stem(files[0]) == Some(token) {
        Some(files[0])
    } else {
        spec_find_in_theme(files.drop_first(), token)
    }
}

/// The resolved icon path of a token: the first matching file of the first
/// theme, in priority order, that has one.
pub open spec fn spec_search_icon(themes: Seq<Seq<Seq<char>>>, token: Seq<char>) -> Option<
    Seq<char>,
>
    decreases themes.len(),
{
    if themes.len() == 0 {
        None
    } else {
        match spec_find_in_theme(themes[0], token) {
            Some(p) => Some(p),
            None => spec_search_icon(themes.drop_first(), token),
        }
    }
}

/// The fixed default icon asset path an unresolved token falls back to.
pub open spec fn spec_default_icon() -> Seq<char> {
    "/usr/share/fuzzle/default.png"@
}

/// The icon path an entry ends up with: the resolved path, or the default.
pub open spec fn spec_icon_or_default(themes: Seq<Seq<Seq<char>>>, token: Seq<char>) -> Seq<char> {
    match spec_search_icon(themes, token) {
        Some(p) => p,
        None => spec_default_icon(),
    }
}

/// The fixed default icon asset path.
pub fn default_icon_path() -> (p: String)
    ensures
        p@ == spec_default_icon(),
{
    String::from_str("/usr/share/fuzzle/default.png")
}

fn clone_opt(o: &Option<String>) -> (r: Option<String>)
    ensures
        opt_view(r) == opt_view(*o),
{
    match o {
        Some(s) => Some(s.clone()),
        None => None,
    }
}

fn find_in_theme(files: &Vec<String>, token: &str) -> (r: Option<String>)
    ensures
        opt_view(r) == spec_find_in_theme(files.deep_view(), token@),
{
    let ghost fm = files.deep_view();
    let mut i: usize = 0;
    proof {
        assert(fm.skip(0) =~= fm);
    }
    while i < files.len()
        invariant
            0 <= i <= files.len(),
            fm == files.deep_view(),
            fm.len() == files.len(),
            spec_find_in_theme(fm, token@) == spec_find_in_theme(fm.skip(i as int), token@),
        decreases files.len() - i,
    {
        proof {
            assert(fm[i as int] == files@[i as int]@);
            assert(fm.skip(i as int)[0] == fm[i as int]);
            assert(fm.skip(i as int).drop_first() =~= fm.skip(i + 1));
        }
        let matched = match file_stem(files[i].as_str()) {
            Some(st) => str_eq(st.as_str(), token),
            None => false,
        };
        if matched {
            proof {
                assert(spec_file_stem(fm[i as int]) == Some(token@));
            }
            return Some(files[i].clone());
        }
        proof {
            assert(spec_file_stem(fm[i as int]) != Some(token@));
        }
        i = i + 1;
    }
    proof {
        assert(fm.skip(i as int) =~= Seq::<Seq<char>>::empty());
    }
    None
}

/// One build pass's icon resolver: the walked file lists of every candidate
/// theme directory, and a memo so each distinct token is resolved by at most
/// one scan of them.
pub struct IconResolver {
    /// Per candidate theme directory, in priority order: the files its walk
    /// found, in walk order.
    pub theme_files: Vec<Vec<String>>,
    /// Memoized answers of earlier lookups in this pass.
    pub memo: Vec<(String, Option<String>)>,
}

impl IconResolver {
    /// Every memoized answer agrees with a fresh scan.
    pub open spec fn wf(self) -> bool {
        forall|k: int|
            0 <= k < self.memo@.len() ==> opt_view(#[trigger] self.memo@[k].1) == spec_search_icon(
                self.theme_files.deep_view(),
                self.memo@[k].0@,
            )
    }

    /// A resolver over the given theme walks, with an empty memo.
    pub fn new(theme_files: Vec<Vec<String>>) -> (r: IconResolver)
        ensures
            r.wf(),
            r.theme_files == theme_files,
    {
        IconResolver { theme_files, memo: Vec::new() }
    }

    /// Resolve an icon token to the first theme file whose stem equals it,
    /// per [`spec_search_icon`]; `None` exactly when no theme has a match.
    pub fn search_icon(&mut self, icon: &str) -> (r: Option<String>)
        requires
            old(self).wf(),
        ensures
            final(self).wf(),
            final(self).theme_files == old(self).theme_files,
            opt_view(r) == spec_search_icon(old(self).theme_files.deep_view(), icon@),
    {
        let ghost themes = self.theme_files.deep_view();
        let mut k: usize = 0;
        while k < self.memo.len()
            invariant
                0 <= k <= self.memo.len(),
                *self == *old(self),
                old(self).wf(),
                themes == self.theme_files.deep_view(),
            decreases self.memo.len() - k,
        {
            if str_eq(self.memo[k].0.as_str(), icon) {
                return clone_opt(&self.memo[k].1);
            }
            k = k + 1;
        }
        let mut t: usize = 0;
        let mut found: Option<String> = None;
        proof {
            assert(themes.skip(0) =~= themes);
        }
        while t < self.theme_files.len() && found.is_none()
            invariant
                0 <= t <= self.theme_files.len(),
                *self == *old(self),
                old(self).wf(),
                themes == self.theme_files.deep_view(),
                themes.len() == self.theme_files.len(),
                found is None ==> spec_search_icon(themes, icon@) == spec_search_icon(
                    themes.skip(t as int),
                    icon@,
                ),
                found matches Some(p) ==> Some(p@) == spec_search_icon(themes, icon@),
            decreases self.theme_files.len() - t,
        {
            proof {
                assert(themes[t as int] == self.theme_files@[t as int].deep_view());
                assert(themes.skip(t as int)[0] == themes[t as int]);
                assert(themes.skip(t as int).drop_first() =~= themes.skip(t + 1));
            }
            let r = find_in_theme(&self.theme_files[t], icon);
            if r.is_some() {
                found = r;
            }
            t = t + 1;
        }
        proof {
            if found is None {
                assert(themes.skip(t as int) =~= Seq::<Seq<Seq<char>>>::empty());
            }
            assert(opt_view(found) == spec_search_icon(themes, icon@));
        }
        let stored = clone_opt(&found);
        self.memo.push((icon.to_owned(), stored));
        proof {
            assert forall|k2: int| 0 <= k2 < self.memo@.len() implies opt_view(
                #[trigger] self.memo@[k2].1,
            ) == spec_search_icon(self.theme_files.deep_view(), self.memo@[k2].0@) by {
                if k2 < self.memo@.len() - 1 {
                    assert(self.memo@[k2] == old(self).memo@[k2]);
                }
            }
        }
        found
    }

    /// The icon path an entry gets for a token: the resolved path when some
    /// theme has one, the fixed default path otherwise.
    pub fn resolve_or_default(&mut self, icon: &str) -> (p: String)
        requires
            old(self).wf(),
        ensures
            final(self).wf(),
            final(self).theme_files == old(self).theme_files,
            p@ == spec_icon_or_default(old(self).theme_files.deep_view(), icon@),
    {
        match self.search_icon(icon) {
            Some(p) => p,
            None => default_icon_path(),
        }
    }
}

} // verus!
