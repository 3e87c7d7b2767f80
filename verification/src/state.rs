//! The shared data model: one launchable entry, and the query state that the
//! user interface hands to the engine on every keystroke.

use vstd::prelude::*;

verus! {

/// Provenance of an entry: parsed from a desktop descriptor file, or
/// synthesized from a plain executable found in a binary directory.
/// Descriptor-sourced entries are favoured by the ranking bias.
#[derive(Clone, Copy, PartialEq, Eq, Structural, Debug)]
pub enum SourceKind {
    DesktopDescriptor,
    RawExecutable,
}

/// One launchable entry of the index, together with the ephemeral fields
/// (`selected`, `score`, `indices`) that ranking and selection fill in per
/// query. The persistent fields are the ones the cache round-trips.
pub struct SearchResult {
    /// Resolved absolute path of the icon image, if any was resolved.
    pub icon_path: Option<String>,
    /// Absolute path of the descriptor file or executable this entry came from.
    pub path: String,
    /// Human-readable display name.
    pub name: String,
    /// Human-readable description.
    pub description: String,
    /// Raw launch command, possibly holding arguments or placeholders.
    pub command: String,
    /// Provenance of the entry.
    pub source: SourceKind,
    /// Whether the selection cursor rests on this entry (set per query).
    pub selected: bool,
    /// Fuzzy score of the last ranking, higher is better (set per query).
    pub score: i64,
    /// Character offsets of the matched query characters (set per query).
    pub indices: Vec<usize>,
}

/// The mathematical value of a [`SearchResult`]: every field as a plain
/// sequence value. Contracts speak of this model.
pub ghost struct ResultModel {
    pub icon_path: Option<Seq<char>>,
    pub path: Seq<char>,
    pub name: Seq<char>,
    pub description: Seq<char>,
    pub command: Seq<char>,
    pub source: SourceKind,
    pub selected: bool,
    pub score: i64,
    pub indices: Seq<usize>,
}

/// The view of an optional string.
pub open spec fn opt_view(o: Option<String>) -> Option<Seq<char>> {
    match o {
        Some(s) => Some(s@),
        None => None,
    }
}

impl View for SearchResult {
    type V = ResultModel;

    open spec fn view(&self) -> ResultModel {
        ResultModel {
            icon_path: opt_view(self.icon_path),
            path: self.path@,
            name: self.name@,
            description: self.description@,
            command: self.command@,
            source: self.source,
            selected: self.selected,
            score: self.score,
            indices: self.indices@,
        }
    }
}

impl ResultModel {
    /// The persistent part of the model: the ephemeral ranking fields reset
    /// to their defaults. Two entries that agree here are the same entry as
    /// far as the cache is concerned.
    pub open spec fn persistent(self) -> ResultModel {
        ResultModel { selected: false, score: 0, indices: seq![], ..self }
    }
}

/// The models of a whole index.
pub open spec fn models(v: Seq<SearchResult>) -> Seq<ResultModel> {
    v.map_values(|r: SearchResult| r@)
}

impl Clone for SearchResult {
    fn clone(&self) -> (res: Self)
        ensures
            res@ == self@,
    {
        SearchResult {
            icon_path: match &self.icon_path {
                Some(p) => Some(p.clone()),
                None => None,
            },
            path: self.path.clone(),
            name: self.name.clone(),
            description: self.description.clone(),
            command: self.command.clone(),
            source: self.source,
            selected: self.selected,
            score: self.score,
            indices: clone_indices(&self.indices),
        }
    }
}

fn clone_indices(v: &Vec<usize>) -> (res: Vec<usize>)
    ensures
        res@ == v@,
{
    let mut out: Vec<usize> = Vec::new();
    let mut i: usize = 0;
    while i < v.len()
        invariant
            i <= v.len(),
            out@ == v@.subrange(0, i as int),
        decreases v.len() - i,
    {
        out.push(v[i]);
        i = i + 1;
        proof {
            assert(out@ =~= v@.subrange(0, i as int));
        }
    }
    proof {
        assert(out@ =~= v@);
    }
    out
}

/// The query state the user interface owns and the engine consumes: the
/// typed text, the ranked window last produced for it, and the cursor into
/// the full ranked list.
pub struct AppState {
    pub input_text: String,
    pub search_results: Vec<SearchResult>,
    pub selected_line: usize,
}

impl AppState {
    /// A fresh query state: empty text, no results, cursor at the top.
    pub fn new() -> (s: AppState)
        ensures
            s.input_text@ == Seq::<char>::empty(),
            s.search_results@ == Seq::<SearchResult>::empty(),
            s.selected_line == 0,
    {
        let s = AppState { input_text: String::new(), search_results: Vec::new(), selected_line: 0 };
        proof {
            assert(s.search_results@ =~= Seq::<SearchResult>::empty());
        }
        s
    }

    /// Replace the query text. Any change to the text moves the cursor back
    /// to the top before the next window is computed.
    pub fn update_input(&mut self, text: String)
        ensures
            final(self).input_text@ == text@,
            final(self).selected_line == 0,
            final(self).search_results == old(self).search_results,
    {
        self.input_text = text;
        self.selected_line = 0;
    }
}

} // verus!
