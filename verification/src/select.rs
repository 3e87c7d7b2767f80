//! Selection state: the saturating cursor over the full ranked list, and the
//! small fixed-size window of it that is shown, anchored so one entry above
//! the cursor stays visible when there is one.

use vstd::prelude::*;

use crate::state::{models, ResultModel, SearchResult};

verus! {

/// The most entries a window shows at once.
pub const WINDOW_SIZE: usize = 3;

/// The cursor clamped into the ranked list (left alone when the list is
/// empty, where it is ignored).
pub open spec fn spec_clamp_cursor(cursor: int, total: int) -> int {
    if total == 0 {
        cursor
    } else if cursor >= total {
        total - 1
    } else {
        cursor
    }
}

/// The cursor after a "next" step: one further down, saturating at the last
/// entry (and ignored when the list is empty).
pub open spec fn spec_cursor_next(cursor: int, total: int) -> int {
    if total == 0 {
        cursor
    } else if cursor + 1 >= total {
        total - 1
    } else {
        cursor + 1
    }
}

/// The cursor after a "previous" step: one up, saturating at the top.
pub open spec fn spec_cursor_prev(cursor: int) -> int {
    if cursor == 0 {
        0
    } else {
        cursor - 1
    }
}

/// Move the cursor one entry down, saturating at the end of the list.
/// At `cursor == total - 1` the cursor does not move.
pub fn cursor_next(cursor: usize, total: usize) -> (c: usize)
    ensures
        c == spec_cursor_next(cursor as int, total as int),
{
    if total == 0 {
        cursor
    } else if cursor >= total - 1 {
        total - 1
    } else {
        cursor + 1
    }
}

/// Move the cursor one entry up, saturating at the top. At `cursor == 0` the
/// cursor does not move.
pub fn cursor_prev(cursor: usize) -> (c: usize)
    ensures
        c == spec_cursor_prev(cursor as int),
{
    if cursor == 0 {
        0
    } else {
        cursor - 1
    }
}

/// How many entries the window shows: the fixed size, or everything when the
/// ranked list is shorter.
pub open spec fn spec_window_size(total: int) -> int {
    if total < WINDOW_SIZE {
        total
    } else {
        WINDOW_SIZE as int
    }
}

/// Where the window starts: one entry above the cursor when there is one,
/// shifted up just enough to keep the window filled at the end of the list.
pub open spec fn spec_window_start(cursor: int, total: int) -> int {
    let w = spec_window_size(total);
    let anchored = if cursor <= 0 {
        0
    } else {
        cursor - 1
    };
    if anchored + w > total {
        total - w
    } else {
        anchored
    }
}

/// An entry as the window shows it: unchanged but for the selection flag.
pub open spec fn spec_mark(m: ResultModel, sel: bool) -> ResultModel {
    ResultModel { selected: sel, ..m }
}

/// The visible window of a ranked list for a (clamped) cursor: a contiguous
/// slice around the cursor, with exactly the cursor's entry marked selected.
pub open spec fn spec_window(ranked: Seq<ResultModel>, cursor: int) -> Seq<ResultModel> {
    let c = spec_clamp_cursor(cursor, ranked.len() as int);
    let w = spec_window_size(ranked.len() as int);
    let start = spec_window_start(c, ranked.len() as int);
    Seq::new(w as nat, |k: int| spec_mark(ranked[start + k], start + k == c))
}

/// The visible window of the ranked list, per [`spec_window`]: the cursor is
/// clamped into the list, the slice holds `min(WINDOW_SIZE, total)` entries,
/// and the clamped cursor's entry is inside it, marked selected; every other
/// entry of the window is marked unselected.
pub fn window(ranked: &Vec<SearchResult>, cursor: usize) -> (w: Vec<SearchResult>)
    ensures
        models(w@) == spec_window(models(ranked@), cursor as int),
{
    let ghost rm = models(ranked@);
    let total = ranked.len();
    let c = if total == 0 {
        cursor
    } else if cursor >= total {
        total - 1
    } else {
        cursor
    };
    let wsize = if total < WINDOW_SIZE {
        total
    } else {
        WINDOW_SIZE
    };
    let anchored = if c == 0 {
        0
    } else {
        c - 1
    };
    let start = if anchored > total - wsize {
        total - wsize
    } else {
        anchored
    };
    let mut out: Vec<SearchResult> = Vec::new();
    let mut k: usize = 0;
    proof {
        assert(c as int == spec_clamp_cursor(cursor as int, rm.len() as int));
        assert(wsize as int == spec_window_size(rm.len() as int));
        assert(start as int == spec_window_start(c as int, rm.len() as int));
    }
    while k < wsize
        invariant
            0 <= k <= wsize,
            start + wsize <= ranked.len(),
            rm == models(ranked@),
            models(out@) =~= spec_window(rm, cursor as int).take(k as int),
            c as int == spec_clamp_cursor(cursor as int, rm.len() as int),
            wsize as int == spec_window_size(rm.len() as int),
            start as int == spec_window_start(c as int, rm.len() as int),
        decreases wsize - k,
    {
        let mut e = ranked[start + k].clone();
        e.selected = start + k == c;
        let ghost prev = models(out@);
        proof {
            assert(rm[start + k] == ranked@[start + k as int]@);
            assert(e@ == spec_mark(rm[start + k], start + k == c));
            assert(spec_window(rm, cursor as int)[k as int] == spec_mark(
                rm[start + k],
                start + k == c,
            ));
        }
        out.push(e);
        proof {
            assert(models(out@) =~= prev.push(e@));
            assert(prev.push(e@) =~= spec_window(rm, cursor as int).take(k + 1));
        }
        k = k + 1;
    }
    proof {
        assert(spec_window(rm, cursor as int).take(wsize as int) =~= spec_window(
            rm,
            cursor as int,
        ));
    }
    out
}

/// Window-bounds law: for every cursor within the ranked list, the window
/// shows `min(WINDOW_SIZE, total)` entries, one of them is the cursor's
/// entry, and exactly that one is marked selected.
pub proof fn lemma_window_bounds(ranked: Seq<ResultModel>, cursor: int)
    requires
        0 <= cursor < ranked.len(),
    ensures
        spec_window(ranked, cursor).len() == spec_window_size(ranked.len() as int),
        exists|k: int|
            0 <= k < spec_window(ranked, cursor).len() && #[trigger] spec_window(ranked, cursor)[k]
                == spec_mark(ranked[cursor], true),
        forall|k: int|
            0 <= k < spec_window(ranked, cursor).len() ==> ((#[trigger] spec_window(
                ranked,
                cursor,
            )[k]).selected <==> spec_window_start(cursor, ranked.len() as int) + k == cursor),
{
    let total = ranked.len() as int;
    let w = spec_window_size(total);
    let start = spec_window_start(cursor, total);
    assert(spec_clamp_cursor(cursor, total) == cursor);
    assert(start <= cursor < start + w);
    let k = cursor - start;
    assert(spec_window(ranked, cursor)[k] == spec_mark(ranked[cursor], true));
}

} // verus!
