//! The engine around the index: load it from the cache image or rebuild it
//! from the directories' contents, rank it against the query state, and react
//! to user actions — saturating cursor moves, cursor reset on text change,
//! and extraction of the executable token on activation.

use vstd::prelude::*;

use crate::cache::{decode_index, encode_index, spec_decode, spec_encode};
use crate::dirutils::{
    bdir_models, build_cache, ddir_models, spec_build, spec_build_ok, BinDir, BuildError,
    DescriptorDir,
};
use crate::icons::IconResolver;
use crate::rank::{rank, spec_rank};
use crate::select::{
    cursor_next, cursor_prev, spec_clamp_cursor, spec_cursor_next, spec_cursor_prev, spec_window,
    window,
};
use crate::state::{models, AppState, ResultModel, SearchResult};
use crate::strutil::{first_token, spec_first_token};

verus! {

/// One user action the engine reacts to.
#[derive(Debug)]
pub enum KeyAction {
    /// Dismiss the launcher.
    Escape,
    /// Launch the entry under the cursor.
    Activate,
    /// Move the cursor one entry down.
    Next,
    /// Move the cursor one entry up.
    Previous,
    /// The query text changed to this value.
    TextInput(String),
}

/// What the caller must do after an event.
#[derive(Debug)]
pub enum Reaction {
    /// Exit without launching.
    Quit,
    /// Start this executable, detached, and exit once it started.
    Launch(String),
    /// Keep the interface running.
    Continue,
}

/// The engine: it owns the in-memory index, built or loaded once and then
/// only read by ranking.
pub struct Delegate {
    pub cache: Vec<SearchResult>,
}

/// The query text an action leaves behind.
pub open spec fn spec_input_for(action: KeyAction, input: Seq<char>) -> Seq<char> {
    match action {
        KeyAction::TextInput(t) => t@,
        _ => input,
    }
}

/// The cursor an action leaves behind: saturating steps for the moves, the
/// top for a text change, unchanged otherwise.
pub open spec fn spec_cursor_for(action: KeyAction, cursor: int, total: int) -> int {
    match action {
        KeyAction::Next => spec_cursor_next(cursor, total),
        KeyAction::Previous => spec_cursor_prev(cursor),
        KeyAction::TextInput(_) => 0,
        _ => cursor,
    }
}

impl Delegate {
    /// Start from a cache image when one could be read and holds a
    /// well-formed encoding; from an empty index otherwise. An absent,
    /// unreadable or undecodable cache file all count alike as a cache miss.
    pub fn new(cache_bytes: Option<&Vec<u8>>) -> (d: Delegate)
        ensures
            models(d.cache@) == match cache_bytes {
                Some(b) => match spec_decode(b@) {
                    Some(ms) => ms,
                    None => Seq::<ResultModel>::empty(),
                },
                None => Seq::<ResultModel>::empty(),
            },
    {
        let cache = match cache_bytes {
            Some(b) => match decode_index(b) {
                Some(v) => v,
                None => Vec::new(),
            },
            None => Vec::new(),
        };
        let d = Delegate { cache };
        proof {
            if models(d.cache@).len() == 0 {
                assert(models(d.cache@) =~= Seq::<ResultModel>::empty());
            }
        }
        d
    }

    /// Rebuild the index from the directories' contents and hand back the
    /// byte image to persist. The image is `Some` exactly when the rebuilt
    /// index is non-empty — the cache is only ever written then — and it is
    /// the encoding of the new index. A failed build (the primary descriptor
    /// directory unreadable) leaves the index as it was.
    pub fn populate_cache(
        &mut self,
        descriptor_dirs: &Vec<DescriptorDir>,
        bin_dirs: &Vec<BinDir>,
        icons: &mut IconResolver,
    ) -> (r: Result<Option<Vec<u8>>, BuildError>)
        requires
            old(icons).wf(),
        ensures
            final(icons).wf(),
            final(icons).theme_files == old(icons).theme_files,
            r is Ok <==> spec_build_ok(ddir_models(descriptor_dirs@)),
            (r is Ok ==> models(final(self).cache@) == spec_build(
                ddir_models(descriptor_dirs@),
                bdir_models(bin_dirs@),
                old(icons).theme_files.deep_view(),
            )),
            (r matches Ok(o) ==> match o {
                Some(bytes) => final(self).cache@.len() > 0 && bytes@ == spec_encode(
                    models(final(self).cache@),
                ),
                None => final(self).cache@.len() == 0,
            }),
            (r is Err ==> *final(self) == *old(self)),
    {
        match build_cache(descriptor_dirs, bin_dirs, icons) {
            Ok(v) => {
                self.cache = v;
                if self.cache.len() > 0 {
                    Ok(Some(encode_index(&self.cache)))
                } else {
                    Ok(None)
                }
            },
            Err(e) => Err(e),
        }
    }

    /// Rank the index against the state's query and derive the visible
    /// window around its cursor: the count of all matches, and the window
    /// slice with exactly the cursor's entry marked selected.
    pub fn search(&self, data: &AppState) -> (r: (usize, Vec<SearchResult>))
        ensures
            r.0 == spec_rank(models(self.cache@), data.input_text@).len(),
            models(r.1@) == spec_window(
                spec_rank(models(self.cache@), data.input_text@),
                data.selected_line as int,
            ),
    {
        let ranked = rank(&self.cache, data.input_text.as_str());
        let w = window(&ranked, data.selected_line);
        (ranked.len(), w)
    }

    /// Feed one user action through the engine: the query text and cursor
    /// move as the action says (saturating steps, reset to the top on any
    /// text change), the state receives the fresh window computed after that
    /// update, and the caller learns what to do — quit, keep running, or
    /// launch the executable token (the command's first whitespace-delimited
    /// token) of the entry under the cursor.
    pub fn event(&self, action: KeyAction, data: &mut AppState) -> (r: Reaction)
        ensures
            ({
                let input = spec_input_for(action, old(data).input_text@);
                let ranked = spec_rank(models(self.cache@), input);
                let cursor = spec_cursor_for(
                    action,
                    old(data).selected_line as int,
                    ranked.len() as int,
                );
                &&& final(data).input_text@ == input
                &&& final(data).selected_line as int == cursor
                &&& models(final(data).search_results@) == spec_window(ranked, cursor)
                &&& match action {
                    KeyAction::Escape => r is Quit,
                    KeyAction::Activate => {
                        if ranked.len() == 0 {
                            r is Continue
                        } else {
                            let c = spec_clamp_cursor(cursor, ranked.len() as int);
                            match spec_first_token(ranked[c].command) {
                                Some(tok) => r matches Reaction::Launch(t) && t@ == tok,
                                None => r is Continue,
                            }
                        }
                    },
                    _ => r is Continue,
                }
            }),
    {
        match action {
            KeyAction::TextInput(t) => {
                data.update_input(t);
                let ranked = rank(&self.cache, data.input_text.as_str());
                data.search_results = window(&ranked, data.selected_line);
                Reaction::Continue
            },
            KeyAction::Next => {
                let ranked = rank(&self.cache, data.input_text.as_str());
                data.selected_line = cursor_next(data.selected_line, ranked.len());
                data.search_results = window(&ranked, data.selected_line);
                Reaction::Continue
            },
            KeyAction::Previous => {
                let ranked = rank(&self.cache, data.input_text.as_str());
                data.selected_line = cursor_prev(data.selected_line);
                data.search_results = window(&ranked, data.selected_line);
                Reaction::Continue
            },
            KeyAction::Escape => {
                let ranked = rank(&self.cache, data.input_text.as_str());
                data.search_results = window(&ranked, data.selected_line);
                Reaction::Quit
            },
            KeyAction::Activate => {
                let ranked = rank(&self.cache, data.input_text.as_str());
                data.search_results = window(&ranked, data.selected_line);
                if ranked.len() == 0 {
                    Reaction::Continue
                } else {
                    let c = if data.selected_line >= ranked.len() {
                        ranked.len() - 1
                    } else {
                        data.selected_line
                    };
                    proof {
                        assert(models(ranked@)[c as int] == ranked@[c as int]@);
                    }
                    match first_token(ranked[c].command.as_str()) {
                        Some(tok) => Reaction::Launch(tok),
                        None => Reaction::Continue,
                    }
                }
            },
        }
    }
}

} // verus!
