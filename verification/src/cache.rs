//! The cache codec: the index as a flat byte image and back. The format is
//! length-prefixed — an entry count, then per entry its persistent fields,
//! each string as a little-endian 64-bit byte length followed by its UTF-8
//! bytes. Decoding accepts exactly the well-formed images and restores every
//! persistent field; the ephemeral ranking fields come back at their
//! defaults. The round-trip law at the end makes that exact.

use vstd::bytes::{
    lemma_auto_spec_u64_to_from_le_bytes, spec_u64_from_le_bytes, spec_u64_to_le_bytes,
    u64_from_le_bytes, u64_to_le_bytes,
};
use vstd::prelude::*;
use vstd::slice::slice_subrange;
use vstd::string::*;
use vstd::utf8::{decode_utf8, encode_utf8, encode_utf8_decode_utf8, encode_utf8_valid_utf8, valid_utf8};

use crate::state::{models, ResultModel, SearchResult, SourceKind};

verus! {

/// The byte image of one string: its UTF-8 length, then its UTF-8 bytes.
pub open spec fn enc_str(s: Seq<char>) -> Seq<u8> {
    spec_u64_to_le_bytes(encode_utf8(s).len() as u64) + encode_utf8(s)
}

/// The byte image of an optional string: a presence tag, then the string.
pub open spec fn enc_opt_str(o: Option<Seq<char>>) -> Seq<u8> {
    match o {
        None => seq![0u8],
        Some(s) => seq![1u8] + enc_str(s),
    }
}

/// The byte image of an entry's provenance.
pub open spec fn enc_source(k: SourceKind) -> Seq<u8> {
    match k {
        SourceKind::DesktopDescriptor => seq![0u8],
        SourceKind::RawExecutable => seq![1u8],
    }
}

/// The byte image of one entry's persistent fields.
pub open spec fn enc_entry(m: ResultModel) -> Seq<u8> {
    enc_str(m.name) + enc_str(m.description) + enc_str(m.command) + enc_opt_str(m.icon_path)
        + enc_str(m.path) + enc_source(m.source)
}

/// The byte images of the entries from position `k` on, concatenated.
pub open spec fn enc_entries(ms: Seq<ResultModel>, k: int) -> Seq<u8>
    decreases ms.len() - k,
{
    if k < 0 || k >= ms.len() {
        Seq::<u8>::empty()
    } else {
        enc_entry(ms[k]) + enc_entries(ms, k + 1)
    }
}

/// The byte image of a whole index: the entry count, then every entry.
pub open spec fn spec_encode(ms: Seq<ResultModel>) -> Seq<u8> {
    spec_u64_to_le_bytes(ms.len() as u64) + enc_entries(ms, 0)
}

/// A string whose UTF-8 length the format's length field can carry.
pub open spec fn str_encodable(s: Seq<char>) -> bool {
    encode_utf8(s).len() <= u64::MAX
}

/// An entry all of whose strings the format can carry.
pub open spec fn entry_encodable(m: ResultModel) -> bool {
    &&& str_encodable(m.name)
    &&& str_encodable(m.description)
    &&& str_encodable(m.command)
    &&& str_encodable(m.path)
    &&& (m.icon_path matches Some(s) ==> str_encodable(s))
}

/// An index the format can carry. Every index held in memory satisfies this:
/// its strings and its length are machine-sized.
pub open spec fn encodable(ms: Seq<ResultModel>) -> bool {
    &&& ms.len() <= u64::MAX
    &&& forall|k: int| 0 <= k < ms.len() ==> entry_encodable(#[trigger] ms[k])
}

/// Parse a length field at `i`: the value and the next position.
pub open spec fn dec_u64(b: Seq<u8>, i: int) -> Option<(u64, int)> {
    if 0 <= i && i + 8 <= b.len() {
        Some((spec_u64_from_le_bytes(b.subrange(i, i + 8)), i + 8))
    } else {
        None
    }
}

/// Parse one string at `i`: fails when the bytes run out or are not UTF-8.
pub open spec fn dec_str(b: Seq<u8>, i: int) -> Option<(Seq<char>, int)> {
    match dec_u64(b, i) {
        None => None,
        Some((n, j)) => {
            if j + n <= b.len() && valid_utf8(b.subrange(j, j + n)) {
                Some((decode_utf8(b.subrange(j, j + n)), j + n))
            } else {
                None
            }
        },
    }
}

/// Parse an optional string at `i`.
pub open spec fn dec_opt_str(b: Seq<u8>, i: int) -> Option<(Option<Seq<char>>, int)> {
    if i < 0 || i >= b.len() {
        None
    } else if b[i] == 0 {
        Some((None, i + 1))
    } else if b[i] == 1 {
        match dec_str(b, i + 1) {
            None => None,
            Some((s, j)) => Some((Some(s), j)),
        }
    } else {
        None
    }
}

/// Parse an entry's provenance at `i`.
pub open spec fn dec_source(b: Seq<u8>, i: int) -> Option<(SourceKind, int)> {
    if i < 0 || i >= b.len() {
        None
    } else if b[i] == 0 {
        Some((SourceKind::DesktopDescriptor, i + 1))
    } else if b[i] == 1 {
        Some((SourceKind::RawExecutable, i + 1))
    } else {
        None
    }
}

/// Parse one entry at `i`: its persistent fields, with the ephemeral fields
/// at their defaults.
pub open spec fn dec_entry(b: Seq<u8>, i: int) -> Option<(ResultModel, int)> {
    match dec_str(b, i) {
        None => None,
        Some((name, i1)) => match dec_str(b, i1) {
            None => None,
            Some((description, i2)) => match dec_str(b, i2) {
                None => None,
                Some((command, i3)) => match dec_opt_str(b, i3) {
                    None => None,
                    Some((icon_path, i4)) => match dec_str(b, i4) {
                        None => None,
                        Some((path, i5)) => match dec_source(b, i5) {
                            None => None,
                            Some((source, i6)) => Some(
                                (
                                    ResultModel {
                                        icon_path,
                                        path,
                                        name,
                                        description,
                                        command,
                                        source,
                                        selected: false,
                                        score: 0,
                                        indices: seq![],
                                    },
                                    i6,
                                ),
                            ),
                        },
                    },
                },
            },
        },
    }
}

/// Parse `n` entries at `i`.
pub open spec fn dec_entries(b: Seq<u8>, i: int, n: nat) -> Option<(Seq<ResultModel>, int)>
    decreases n,
{
    if n == 0 {
        Some((Seq::<ResultModel>::empty(), i))
    } else {
        match dec_entry(b, i) {
            None => None,
            Some((m, j)) => match dec_entries(b, j, (n - 1) as nat) {
                None => None,
                Some((ms, k)) => Some((seq![m] + ms, k)),
            },
        }
    }
}

/// What a byte image means: `Some` of the index it encodes, exactly when the
/// whole image is one well-formed encoding; `None` on anything else.
pub open spec fn spec_decode(b: Seq<u8>) -> Option<Seq<ResultModel>> {
    match dec_u64(b, 0) {
        None => None,
        Some((n, i)) => match dec_entries(b, i, n as nat) {
            None => None,
            Some((ms, j)) => {
                if j == b.len() {
                    Some(ms)
                } else {
                    None
                }
            },
        },
    }
}

// --- executable encoding ---

fn push_u64(out: &mut Vec<u8>, x: u64)
    ensures
        final(out)@ == old(out)@ + spec_u64_to_le_bytes(x),
{
    let mut b = u64_to_le_bytes(x);
    out.append(&mut b);
}

fn push_str(out: &mut Vec<u8>, s: &String)
    ensures
        final(out)@ == old(out)@ + enc_str(s@),
{
    let ghost before = out@;
    let mut bytes = s.as_str().as_bytes_vec();
    let n = bytes.len() as u64;
    proof {
        assert(bytes@ == encode_utf8(s@));
        assert(n == encode_utf8(s@).len() as u64);
    }
    push_u64(out, n);
    out.append(&mut bytes);
    proof {
        assert(out@ =~= before + enc_str(s@));
    }
}

fn push_opt_str(out: &mut Vec<u8>, o: &Option<String>)
    ensures
        final(out)@ == old(out)@ + enc_opt_str(crate::state::opt_view(*o)),
{
    let ghost before = out@;
    match o {
        None => {
            out.push(0u8);
            proof {
                assert(out@ =~= before + enc_opt_str(None));
            }
        },
        Some(s) => {
            out.push(1u8);
            let ghost mid = out@;
            proof {
                assert(mid =~= before + seq![1u8]);
            }
            push_str(out, s);
            proof {
                assert(out@ =~= before + enc_opt_str(Some(s@)));
            }
        },
    }
}

fn push_source(out: &mut Vec<u8>, k: SourceKind)
    ensures
        final(out)@ == old(out)@ + enc_source(k),
{
    let ghost before = out@;
    match k {
        SourceKind::DesktopDescriptor => {
            out.push(0u8);
        },
        SourceKind::RawExecutable => {
            out.push(1u8);
        },
    }
    proof {
        assert(out@ =~= before + enc_source(k));
    }
}

fn push_entry(out: &mut Vec<u8>, e: &SearchResult)
    ensures
        final(out)@ == old(out)@ + enc_entry(e@),
{
    let ghost before = out@;
    push_str(out, &e.name);
    push_str(out, &e.description);
    push_str(out, &e.command);
    push_opt_str(out, &e.icon_path);
    push_str(out, &e.path);
    push_source(out, e.source);
    proof {
        assert(out@ =~= before + enc_entry(e@));
    }
}

/// The byte image of the index, per [`spec_encode`].
pub fn encode_index(v: &Vec<SearchResult>) -> (out: Vec<u8>)
    ensures
        out@ == spec_encode(models(v@)),
{
    let ghost ms = models(v@);
    let mut out: Vec<u8> = Vec::new();
    push_u64(&mut out, v.len() as u64);
    proof {
        assert(out@ =~= spec_u64_to_le_bytes(ms.len() as u64));
    }
    let mut k: usize = 0;
    while k < v.len()
        invariant
            0 <= k <= v.len(),
            ms == models(v@),
            ms.len() == v.len(),
            out@ + enc_entries(ms, k as int) == spec_encode(ms),
        decreases v.len() - k,
    {
        let ghost before = out@;
        proof {
            assert(ms[k as int] == v@[k as int]@);
        }
        push_entry(&mut out, &v[k]);
        proof {
            assert((before + enc_entry(ms[k as int])) + enc_entries(ms, k + 1) =~= before + (
            enc_entry(ms[k as int]) + enc_entries(ms, k + 1)));
        }
        k = k + 1;
    }
    proof {
        assert(enc_entries(ms, k as int) =~= Seq::<u8>::empty());
        assert(out@ + Seq::<u8>::empty() =~= out@);
    }
    out
}

// --- executable decoding ---

/// Relies on `core::str::from_utf8`: it returns `Ok` exactly on valid UTF-8
/// input, viewing the decoded characters of those bytes.
#[verifier::external_body]
fn str_from_utf8<'a>(b: &'a [u8]) -> (r: Option<&'a str>)
    ensures
        r is Some <==> valid_utf8(b@),
        r matches Some(s) ==> s@ == decode_utf8(b@),
{
    core::str::from_utf8(b).ok()
}

fn read_u64(b: &Vec<u8>, i: usize) -> (r: Option<(u64, usize)>)
    ensures
        match r {
            Some(p) => dec_u64(b@, i as int) == Some((p.0, p.1 as int)) && i < p.1 <= b@.len(),
            None => dec_u64(b@, i as int) is None,
        },
{
    if b.len() >= 8 && i <= b.len() - 8 {
        let s = slice_subrange(b.as_slice(), i, i + 8);
        let x = u64_from_le_bytes(s);
        Some((x, i + 8))
    } else {
        None
    }
}

fn read_str(b: &Vec<u8>, i: usize) -> (r: Option<(String, usize)>)
    ensures
        match r {
            Some(p) => dec_str(b@, i as int) == Some((p.0@, p.1 as int)) && i < p.1 <= b@.len(),
            None => dec_str(b@, i as int) is None,
        },
{
    match read_u64(b, i) {
        None => None,
        Some((n, j)) => {
            if n > (b.len() - j) as u64 {
                return None;
            }
            let len = n as usize;
            let s = slice_subrange(b.as_slice(), j, j + len);
            match str_from_utf8(s) {
                None => {
                    proof {
                        assert(!valid_utf8(b@.subrange(j as int, j + n)));
                    }
                    None
                },
                Some(st) => Some((st.to_owned(), j + len)),
            }
        },
    }
}

fn read_opt_str(b: &Vec<u8>, i: usize) -> (r: Option<(Option<String>, usize)>)
    ensures
        match r {
            Some(p) => dec_opt_str(b@, i as int) == Some(
                (crate::state::opt_view(p.0), p.1 as int),
            ) && i < p.1 <= b@.len(),
            None => dec_opt_str(b@, i as int) is None,
        },
{
    if i >= b.len() {
        return None;
    }
    let tag = b[i];
    if tag == 0 {
        Some((None, i + 1))
    } else if tag == 1 {
        match read_str(b, i + 1) {
            None => None,
            Some((s, j)) => Some((Some(s), j)),
        }
    } else {
        None
    }
}

fn read_source(b: &Vec<u8>, i: usize) -> (r: Option<(SourceKind, usize)>)
    ensures
        match r {
            Some(p) => dec_source(b@, i as int) == Some((p.0, p.1 as int)) && i < p.1 <= b@.len(),
            None => dec_source(b@, i as int) is None,
        },
{
    if i >= b.len() {
        return None;
    }
    let tag = b[i];
    if tag == 0 {
        Some((SourceKind::DesktopDescriptor, i + 1))
    } else if tag == 1 {
        Some((SourceKind::RawExecutable, i + 1))
    } else {
        None
    }
}

fn read_entry(b: &Vec<u8>, i: usize) -> (r: Option<(SearchResult, usize)>)
    ensures
        match r {
            Some(p) => dec_entry(b@, i as int) == Some((p.0@, p.1 as int)) && i < p.1 <= b@.len(),
            None => dec_entry(b@, i as int) is None,
        },
{
    let name = match read_str(b, i) {
        Some(p) => p,
        None => {
            return None;
        },
    };
    let description = match read_str(b, name.1) {
        Some(p) => p,
        None => {
            return None;
        },
    };
    let command = match read_str(b, description.1) {
        Some(p) => p,
        None => {
            return None;
        },
    };
    let icon_path = match read_opt_str(b, command.1) {
        Some(p) => p,
        None => {
            return None;
        },
    };
    let path = match read_str(b, icon_path.1) {
        Some(p) => p,
        None => {
            return None;
        },
    };
    let source = match read_source(b, path.1) {
        Some(p) => p,
        None => {
            return None;
        },
    };
    let e = SearchResult {
        icon_path: icon_path.0,
        path: path.0,
        name: name.0,
        description: description.0,
        command: command.0,
        source: source.0,
        selected: false,
        score: 0,
        indices: Vec::new(),
    };
    proof {
        assert(e@.indices =~= Seq::<usize>::empty());
    }
    Some((e, source.1))
}

/// The index a byte image holds, per [`spec_decode`]: `Some` exactly when the
/// image is one well-formed encoding, and then every persistent field is
/// restored and the ephemeral fields are at their defaults.
pub fn decode_index(b: &Vec<u8>) -> (r: Option<Vec<SearchResult>>)
    ensures
        match r {
            Some(v) => spec_decode(b@) == Some(models(v@)),
            None => spec_decode(b@) is None,
        },
{
    let (n, start) = match read_u64(b, 0) {
        Some(p) => p,
        None => {
            return None;
        },
    };
    let mut out: Vec<SearchResult> = Vec::new();
    let mut i = start;
    let mut rem = n;
    proof {
        assert(models(out@) =~= Seq::<ResultModel>::empty());
        assert(dec_entries(b@, start as int, n as nat) == match dec_entries(
            b@,
            i as int,
            rem as nat,
        ) {
            Some((ms2, j2)) => Some((models(out@) + ms2, j2)),
            None => None::<(Seq<ResultModel>, int)>,
        }) by {
            match dec_entries(b@, i as int, rem as nat) {
                Some((ms2, j2)) => {
                    assert(models(out@) + ms2 =~= ms2);
                },
                None => {},
            }
        }
    }
    while rem > 0
        invariant
            i <= b@.len(),
            dec_u64(b@, 0) == Some((n, start as int)),
            dec_entries(b@, start as int, n as nat) == match dec_entries(
                b@,
                i as int,
                rem as nat,
            ) {
                Some((ms2, j2)) => Some((models(out@) + ms2, j2)),
                None => None::<(Seq<ResultModel>, int)>,
            },
        decreases rem,
    {
        let ghost prev = models(out@);
        match read_entry(b, i) {
            None => {
                proof {
                    assert(dec_entries(b@, i as int, rem as nat) is None);
                }
                return None;
            },
            Some((e, j)) => {
                out.push(e);
                proof {
                    assert(models(out@) =~= prev.push(e@));
                    match dec_entries(b@, j as int, (rem - 1) as nat) {
                        Some((ms2, j2)) => {
                            assert(prev.push(e@) + ms2 =~= prev + (seq![e@] + ms2));
                        },
                        None => {},
                    }
                }
                i = j;
                rem = rem - 1;
            },
        }
    }
    proof {
        assert(dec_entries(b@, i as int, 0nat) == Some((Seq::<ResultModel>::empty(), i as int)));
        assert(models(out@) + Seq::<ResultModel>::empty() =~= models(out@));
        assert(dec_entries(b@, start as int, n as nat) == Some((models(out@), i as int)));
    }
    if i == b.len() {
        Some(out)
    } else {
        None
    }
}

// --- the round-trip law ---

proof fn lemma_dec_u64_at(b: Seq<u8>, i: int, x: u64)
    requires
        0 <= i,
        i + 8 <= b.len(),
        b.subrange(i, i + 8) == spec_u64_to_le_bytes(x),
    ensures
        dec_u64(b, i) == Some((x, i + 8)),
{
    lemma_auto_spec_u64_to_from_le_bytes();
}

proof fn lemma_dec_str_at(b: Seq<u8>, i: int, s: Seq<char>)
    requires
        str_encodable(s),
        0 <= i,
        i + enc_str(s).len() <= b.len(),
        b.subrange(i, i + enc_str(s).len()) == enc_str(s),
    ensures
        enc_str(s).len() == 8 + encode_utf8(s).len(),
        dec_str(b, i) == Some((s, i + enc_str(s).len())),
{
    lemma_auto_spec_u64_to_from_le_bytes();
    broadcast use encode_utf8_valid_utf8;
    broadcast use encode_utf8_decode_utf8;

    let n = encode_utf8(s).len() as int;
    let e = enc_str(s);
    assert(e.len() == 8 + n);
    assert(b.subrange(i, i + 8) =~= spec_u64_to_le_bytes(n as u64)) by {
        assert forall|t: int| 0 <= t < 8 implies #[trigger] b.subrange(i, i + 8)[t]
            == spec_u64_to_le_bytes(n as u64)[t] by {
            assert(b.subrange(i, i + e.len())[t] == e[t]);
        }
    }
    lemma_dec_u64_at(b, i, n as u64);
    assert(n as u64 as int == n);
    assert(b.subrange(i + 8, i + 8 + n) =~= encode_utf8(s)) by {
        assert forall|t: int| 0 <= t < n implies b.subrange(i + 8, i + 8 + n)[t] == encode_utf8(
            s,
        )[t] by {
            assert(b.subrange(i, i + e.len())[8 + t] == e[8 + t]);
        }
    }
    assert(valid_utf8(encode_utf8(s)));
    assert(decode_utf8(encode_utf8(s)) == s);
}

proof fn lemma_dec_opt_str_at(b: Seq<u8>, i: int, o: Option<Seq<char>>)
    requires
        (o matches Some(s) ==> str_encodable(s)),
        0 <= i,
        i + enc_opt_str(o).len() <= b.len(),
        b.subrange(i, i + enc_opt_str(o).len()) == enc_opt_str(o),
    ensures
        dec_opt_str(b, i) == Some((o, i + enc_opt_str(o).len())),
{
    let e = enc_opt_str(o);
    match o {
        None => {
            assert(b.subrange(i, i + 1)[0] == e[0]);
            assert(b[i] == 0);
        },
        Some(s) => {
            assert(b.subrange(i, i + e.len())[0] == e[0]);
            assert(b[i] == 1);
            assert(e == seq![1u8] + enc_str(s));
            assert(b.subrange(i + 1, i + 1 + enc_str(s).len()) =~= enc_str(s)) by {
                assert forall|t: int| 0 <= t < enc_str(s).len() implies b.subrange(
                    i + 1,
                    i + 1 + enc_str(s).len(),
                )[t] == enc_str(s)[t] by {
                    assert(b.subrange(i, i + e.len())[1 + t] == e[1 + t]);
                }
            }
            lemma_dec_str_at(b, i + 1, s);
        },
    }
}

proof fn lemma_dec_source_at(b: Seq<u8>, i: int, k: SourceKind)
    requires
        0 <= i,
        i + 1 <= b.len(),
        b.subrange(i, i + 1) == enc_source(k),
    ensures
        dec_source(b, i) == Some((k, i + 1)),
{
    assert(b.subrange(i, i + 1)[0] == enc_source(k)[0]);
}

proof fn lemma_dec_entry_at(b: Seq<u8>, i: int, m: ResultModel)
    requires
        entry_encodable(m),
        0 <= i,
        i + enc_entry(m).len() <= b.len(),
        b.subrange(i, i + enc_entry(m).len()) == enc_entry(m),
    ensures
        dec_entry(b, i) == Some((m.persistent(), i + enc_entry(m).len())),
{
    let c1 = enc_str(m.name);
    let c2 = enc_str(m.description);
    let c3 = enc_str(m.command);
    let c4 = enc_opt_str(m.icon_path);
    let c5 = enc_str(m.path);
    let c6 = enc_source(m.source);
    let e = enc_entry(m);
    assert(e == c1 + c2 + c3 + c4 + c5 + c6);
    let o2 = i + c1.len();
    let o3 = o2 + c2.len();
    let o4 = o3 + c3.len();
    let o5 = o4 + c4.len();
    let o6 = o5 + c5.len();
    let end = o6 + c6.len();
    assert(end == i + e.len());
    assert(b.subrange(i, o2) =~= c1) by {
        assert forall|t: int| 0 <= t < c1.len() implies b.subrange(i, o2)[t] == c1[t] by {
            assert(b.subrange(i, i + e.len())[t] == e[t]);
            assert(e[t] == c1[t]);
        }
    }
    lemma_dec_str_at(b, i, m.name);
    assert(b.subrange(o2, o3) =~= c2) by {
        assert forall|t: int| 0 <= t < c2.len() implies b.subrange(o2, o3)[t] == c2[t] by {
            assert(b.subrange(i, i + e.len())[(o2 - i) + t] == e[(o2 - i) + t]);
            assert(e[(o2 - i) + t] == c2[t]);
        }
    }
    lemma_dec_str_at(b, o2, m.description);
    assert(b.subrange(o3, o4) =~= c3) by {
        assert forall|t: int| 0 <= t < c3.len() implies b.subrange(o3, o4)[t] == c3[t] by {
            assert(b.subrange(i, i + e.len())[(o3 - i) + t] == e[(o3 - i) + t]);
            assert(e[(o3 - i) + t] == c3[t]);
        }
    }
    lemma_dec_str_at(b, o3, m.command);
    assert(b.subrange(o4, o5) =~= c4) by {
        assert forall|t: int| 0 <= t < c4.len() implies b.subrange(o4, o5)[t] == c4[t] by {
            assert(b.subrange(i, i + e.len())[(o4 - i) + t] == e[(o4 - i) + t]);
            assert(e[(o4 - i) + t] == c4[t]);
        }
    }
    lemma_dec_opt_str_at(b, o4, m.icon_path);
    assert(b.subrange(o5, o6) =~= c5) by {
        assert forall|t: int| 0 <= t < c5.len() implies b.subrange(o5, o6)[t] == c5[t] by {
            assert(b.subrange(i, i + e.len())[(o5 - i) + t] == e[(o5 - i) + t]);
            assert(e[(o5 - i) + t] == c5[t]);
        }
    }
    lemma_dec_str_at(b, o5, m.path);
    assert(b.subrange(o6, end) =~= c6) by {
        assert forall|t: int| 0 <= t < c6.len() implies b.subrange(o6, end)[t] == c6[t] by {
            assert(b.subrange(i, i + e.len())[(o6 - i) + t] == e[(o6 - i) + t]);
            assert(e[(o6 - i) + t] == c6[t]);
        }
    }
    lemma_dec_source_at(b, o6, m.source);
}

/// The entries from `k` on, each reduced to its persistent fields.
pub open spec fn persistent_from(ms: Seq<ResultModel>, k: int) -> Seq<ResultModel>
    decreases ms.len() - k,
{
    if k < 0 || k >= ms.len() {
        Seq::<ResultModel>::empty()
    } else {
        seq![ms[k].persistent()] + persistent_from(ms, k + 1)
    }
}

proof fn lemma_dec_entries_at(b: Seq<u8>, i: int, ms: Seq<ResultModel>, k: int)
    requires
        0 <= k <= ms.len(),
        forall|t: int| k <= t < ms.len() ==> entry_encodable(#[trigger] ms[t]),
        0 <= i,
        i + enc_entries(ms, k).len() <= b.len(),
        b.subrange(i, i + enc_entries(ms, k).len()) == enc_entries(ms, k),
    ensures
        dec_entries(b, i, (ms.len() - k) as nat) == Some(
            (persistent_from(ms, k), i + enc_entries(ms, k).len()),
        ),
    decreases ms.len() - k,
{
    if k == ms.len() {
        assert(persistent_from(ms, k) =~= Seq::<ResultModel>::empty());
    } else {
        let c = enc_entry(ms[k]);
        let rest = enc_entries(ms, k + 1);
        let e = enc_entries(ms, k);
        assert(e == c + rest);
        assert(b.subrange(i, i + c.len()) =~= c) by {
            assert forall|t: int| 0 <= t < c.len() implies b.subrange(i, i + c.len())[t]
                == c[t] by {
                assert(b.subrange(i, i + e.len())[t] == e[t]);
                assert(e[t] == c[t]);
            }
        }
        lemma_dec_entry_at(b, i, ms[k]);
        assert(b.subrange(i + c.len(), i + c.len() + rest.len()) =~= rest) by {
            assert forall|t: int| 0 <= t < rest.len() implies b.subrange(
                i + c.len(),
                i + c.len() + rest.len(),
            )[t] == rest[t] by {
                assert(b.subrange(i, i + e.len())[c.len() + t] == e[c.len() + t]);
                assert(e[c.len() + t] == rest[t]);
            }
        }
        lemma_dec_entries_at(b, i + c.len(), ms, k + 1);
        assert(persistent_from(ms, k) == seq![ms[k].persistent()] + persistent_from(ms, k + 1));
    }
}

proof fn lemma_persistent_from_is_map(ms: Seq<ResultModel>, k: int)
    requires
        0 <= k <= ms.len(),
    ensures
        persistent_from(ms, k) =~= ms.map_values(|m: ResultModel| m.persistent()).skip(k),
    decreases ms.len() - k,
{
    if k < ms.len() {
        lemma_persistent_from_is_map(ms, k + 1);
    }
}

/// Cache round-trip law: decoding the encoding of any index yields exactly
/// that index with every persistent field intact and the ephemeral ranking
/// fields reset. (The `encodable` bound only says the index and its strings
/// fit the format's 64-bit length fields, which any index held in memory
/// does.)
pub proof fn lemma_cache_round_trip(ms: Seq<ResultModel>)
    requires
        encodable(ms),
    ensures
        spec_decode(spec_encode(ms)) == Some(ms.map_values(|m: ResultModel| m.persistent())),
{
    lemma_auto_spec_u64_to_from_le_bytes();
    let b = spec_encode(ms);
    let n = ms.len() as u64;
    assert(b == spec_u64_to_le_bytes(n) + enc_entries(ms, 0));
    assert(b.subrange(0, 8) =~= spec_u64_to_le_bytes(n));
    lemma_dec_u64_at(b, 0, n);
    assert(b.subrange(8, 8 + enc_entries(ms, 0).len() as int) =~= enc_entries(ms, 0));
    lemma_dec_entries_at(b, 8, ms, 0);
    assert(n as nat == (ms.len() - 0) as nat);
    lemma_persistent_from_is_map(ms, 0);
    assert(ms.map_values(|m: ResultModel| m.persistent()).skip(0) =~= ms.map_values(
        |m: ResultModel| m.persistent(),
    ));
}

} // verus!
