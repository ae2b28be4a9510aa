use vstd::prelude::*;
use crate::error::JudgeError;
use crate::text::{
    clean_cell, decode_utf8_chars, is_unicode_ws, lemma_trim_edges, remove_cell_tokens,
    remove_cell_token, string_of, trim_chars, views,
};

verus! {

/// The body-start marker `\sectd`.
pub open spec fn sectd() -> Seq<u8> {
    seq![92u8, 115u8, 101u8, 99u8, 116u8, 100u8]
}

/// The paragraph-start marker `\pard\plain`.
pub open spec fn pard() -> Seq<u8> {
    seq![92u8, 112u8, 97u8, 114u8, 100u8, 92u8, 112u8, 108u8, 97u8, 105u8, 110u8]
}

/// The byte `{`, which opens a cell.
pub const LEFT_CURLY_BRACE: u8 = 123;

/// The byte `}`, which closes a cell.
pub const RIGHT_CURLY_BRACE: u8 = 125;

/// `m` occurs in `data` starting at position `i`.
pub open spec fn occurs_at(data: Seq<u8>, m: Seq<u8>, i: int) -> bool {
    0 <= i && i + m.len() <= data.len() && data.subrange(i, i + m.len()) == m
}

/// The paragraph-start marker ends at position `i` of `data`.
pub open spec fn pard_ends_at(data: Seq<u8>, i: int) -> bool {
    occurs_at(data, pard(), i + 1 - pard().len())
}

/// What the cell scanner is looking for.
#[derive(Debug, Clone, Copy, PartialEq, Eq, Structural)]
pub enum ScanStatus {
    /// The end of a paragraph-start marker.
    CellEnd,
    /// The opening brace of a cell.
    PardStart,
    /// The closing brace of the cell that starts at the recorded offset.
    CellStart,
}

/// The cleaned text of the cell whose raw bytes are `raw`, or the decode error.
pub open spec fn cell_text(raw: Seq<u8>) -> Result<Seq<char>, JudgeError> {
    if vstd::utf8::valid_utf8(raw) {
        Ok(clean_cell(vstd::utf8::decode_utf8(raw)))
    } else {
        Err(JudgeError::DecodeError)
    }
}

/// The cells found in `data` from position `i` on, the scanner being in
/// status `st` with a cell recorded to start at `start`; empty cells are left
/// out.
pub open spec fn scan(data: Seq<u8>, i: int, st: ScanStatus, start: int) -> Result<
    Seq<Seq<char>>,
    JudgeError,
>
    decreases data.len() - i,
{
    if i < 0 || i >= data.len() {
        Ok(seq![])
    } else {
        match st {
            ScanStatus::CellEnd => {
                if pard_ends_at(data, i) {
                    scan(data, i + 1, ScanStatus::PardStart, start)
                } else {
                    scan(data, i + 1, ScanStatus::CellEnd, start)
                }
            },
            ScanStatus::PardStart => {
                if data[i] == LEFT_CURLY_BRACE {
                    scan(data, i + 1, ScanStatus::CellStart, i + 1)
                } else {
                    scan(data, i + 1, ScanStatus::PardStart, start)
                }
            },
            ScanStatus::CellStart => {
                if data[i] == RIGHT_CURLY_BRACE {
                    match cell_text(data.subrange(start, i)) {
                        Err(e) => Err(e),
                        Ok(t) => prepend(
                            if t.len() > 0 { seq![t] } else { seq![] },
                            scan(data, i + 1, ScanStatus::CellEnd, start),
                        ),
                    }
                } else {
                    scan(data, i + 1, ScanStatus::CellStart, start)
                }
            },
        }
    }
}

/// `p` put in front of the cells of `r`, or the error of `r`.
pub open spec fn prepend(p: Seq<Seq<char>>, r: Result<Seq<Seq<char>>, JudgeError>) -> Result<
    Seq<Seq<char>>,
    JudgeError,
> {
    match r {
        Ok(rest) => Ok(p + rest),
        Err(e) => Err(e),
    }
}

/// The cells of a document body, in document order.
pub open spec fn cells_of(data: Seq<u8>) -> Result<Seq<Seq<char>>, JudgeError> {
    scan(data, 0, ScanStatus::CellEnd, 0)
}

/// A cell text that is not empty and neither starts nor ends with whitespace.
pub open spec fn is_clean(t: Seq<char>) -> bool {
    t.len() > 0 && !is_unicode_ws(t[0]) && !is_unicode_ws(t.last())
}

proof fn lemma_scan_clean(data: Seq<u8>, i: int, st: ScanStatus, start: int)
    ensures
        scan(data, i, st, start) matches Ok(cs) ==> forall|k: int|
            0 <= k < cs.len() ==> is_clean(#[trigger] cs[k]),
    decreases data.len() - i,
{
    if 0 <= i < data.len() {
        match st {
            ScanStatus::CellEnd => {
                lemma_scan_clean(data, i + 1, ScanStatus::PardStart, start);
                lemma_scan_clean(data, i + 1, ScanStatus::CellEnd, start);
            },
            ScanStatus::PardStart => {
                lemma_scan_clean(data, i + 1, ScanStatus::CellStart, i + 1);
                lemma_scan_clean(data, i + 1, ScanStatus::PardStart, start);
            },
            ScanStatus::CellStart => {
                lemma_scan_clean(data, i + 1, ScanStatus::CellEnd, start);
                lemma_scan_clean(data, i + 1, ScanStatus::CellStart, start);
                let raw = data.subrange(start, i);
                if data[i] == RIGHT_CURLY_BRACE && vstd::utf8::valid_utf8(raw) {
                    let t = clean_cell(vstd::utf8::decode_utf8(raw));
                    lemma_trim_edges(remove_cell_tokens(vstd::utf8::decode_utf8(raw)));
                    let rest = scan(data, i + 1, ScanStatus::CellEnd, start);
                    if let Ok(cs) = rest {
                        let head: Seq<Seq<char>> = if t.len() > 0 { seq![t] } else { seq![] };
                        assert forall|k: int| 0 <= k < (head + cs).len() implies is_clean(
                            #[trigger] (head + cs)[k],
                        ) by {
                            if k >= head.len() {
                                assert((head + cs)[k] == cs[k - head.len()]);
                            }
                        }
                    }
                }
            },
        }
    }
}

/// Every cell extracted from a body is non-empty and neither starts nor ends
/// with whitespace.
pub proof fn lemma_cells_clean(data: Seq<u8>)
    ensures
        cells_of(data) matches Ok(cs) ==> forall|k: int|
            0 <= k < cs.len() ==> is_clean(#[trigger] cs[k]),
{
    lemma_scan_clean(data, 0, ScanStatus::CellEnd, 0);
}

/// Whether `m` occurs in `data` at position `i`.
fn bytes_at(data: &[u8], m: &Vec<u8>, i: usize) -> (r: bool)
    ensures
        r == occurs_at(data@, m@, i as int),
{
    if i > data.len() || data.len() - i < m.len() {
        return false;
    }
    let n = data.len();
    let mut k: usize = 0;
    while k < m.len()
        invariant
            n == data@.len(),
            i + m@.len() <= data@.len(),
            k <= m@.len(),
            forall|j: int| 0 <= j < k ==> data@[i + j] == m@[j],
        decreases m.len() - k,
    {
        if data[i + k] != m[k] {
            assert(data@.subrange(i as int, i + m@.len())[k as int] != m@[k as int]);
            return false;
        }
        k = k + 1;
    }
    assert(data@.subrange(i as int, i + m@.len()) =~= m@);
    true
}

/// The index of the first occurrence of the body-start marker `\sectd`.
pub fn content_start_index(data: &[u8]) -> (r: Result<usize, JudgeError>)
    ensures
        match r {
            Ok(i) => occurs_at(data@, sectd(), i as int) && forall|j: int|
                0 <= j < i ==> !occurs_at(data@, sectd(), j),
            Err(e) => e == JudgeError::MarkerNotFound && forall|j: int|
                !occurs_at(data@, sectd(), j),
        },
{
    let marker: Vec<u8> = vec![92u8, 115u8, 101u8, 99u8, 116u8, 100u8];
    assert(marker@ =~= sectd());
    let mut i: usize = 0;
    while i < data.len()
        invariant
            marker@ == sectd(),
            i <= data@.len(),
            forall|j: int| 0 <= j < i ==> !occurs_at(data@, sectd(), j),
        decreases data.len() - i,
    {
        if bytes_at(data, &marker, i) {
            return Ok(i);
        }
        i = i + 1;
    }
    Err(JudgeError::MarkerNotFound)
}

/// The cleaned text of the cell whose raw bytes are `raw`.
fn cell_string(raw: &[u8]) -> (r: Result<String, JudgeError>)
    ensures
        match r {
            Ok(t) => cell_text(raw@) == Ok::<Seq<char>, JudgeError>(t@),
            Err(e) => cell_text(raw@) == Err::<Seq<char>, JudgeError>(e),
        },
{
    match decode_utf8_chars(raw) {
        None => Err(JudgeError::DecodeError),
        Some(cs) => {
            let removed = remove_cell_token(&cs);
            let trimmed = trim_chars(&removed);
            Ok(string_of(trimmed.as_slice()))
        },
    }
}

/// Adding cells one by one in front keeps the overall result.
proof fn lemma_prepend_assoc(p: Seq<Seq<char>>, q: Seq<Seq<char>>, r: Result<
    Seq<Seq<char>>,
    JudgeError,
>)
    ensures
        prepend(p, prepend(q, r)) == prepend(p + q, r),
{
    if let Ok(rest) = r {
        assert(p + (q + rest) =~= p + q + rest);
    }
}

/// The non-empty cleaned cells of a document body, in document order.
pub fn fetch_contents(data: &[u8]) -> (r: Result<Vec<String>, JudgeError>)
    ensures
        match r {
            Ok(v) => cells_of(data@) == Ok::<Seq<Seq<char>>, JudgeError>(views(v@)),
            Err(e) => cells_of(data@) == Err::<Seq<Seq<char>>, JudgeError>(e),
        },
{
    let marker: Vec<u8> = vec![92u8, 112u8, 97u8, 114u8, 100u8, 92u8, 112u8, 108u8, 97u8, 105u8, 110u8];
    assert(marker@ =~= pard());
    let mut contents: Vec<String> = Vec::new();
    let mut status = ScanStatus::CellEnd;
    let mut cell_start: usize = 0;
    let n = data.len();
    let mut i: usize = 0;
    proof {
        lemma_prepend_assoc(seq![], seq![], cells_of(data@));
        assert(views(contents@) =~= seq![]);
        assert(Seq::<Seq<char>>::empty() + Seq::<Seq<char>>::empty() =~= Seq::<Seq<char>>::empty());
        if let Ok(rest) = cells_of(data@) {
            assert(Seq::<Seq<char>>::empty() + rest =~= rest);
        }
    }
    while i < n
        invariant
            n == data@.len(),
            marker@ == pard(),
            i <= n,
            cell_start <= i,
            prepend(views(contents@), scan(data@, i as int, status, cell_start as int))
                == cells_of(data@),
        decreases n - i,
    {
        match status {
            ScanStatus::CellEnd => {
                if i + 1 >= 11 && bytes_at(data, &marker, i + 1 - 11) {
                    status = ScanStatus::PardStart;
                }
            },
            ScanStatus::PardStart => {
                if data[i] == LEFT_CURLY_BRACE {
                    cell_start = i + 1;
                    status = ScanStatus::CellStart;
                }
            },
            ScanStatus::CellStart => {
                if data[i] == RIGHT_CURLY_BRACE {
                    let raw = vstd::slice::slice_subrange(data, cell_start, i);
                    let ghost old_views = views(contents@);
                    let ghost rest = scan(data@, i + 1, ScanStatus::CellEnd, cell_start as int);
                    match cell_string(raw) {
                        Err(e) => {
                            return Err(e);
                        },
                        Ok(content) => {
                            if !content.as_str().is_empty() {
                                proof {
                                    assert(content@.len() > 0);
                                    lemma_prepend_assoc(old_views, seq![content@], rest);
                                    assert(views(contents@.push(content)) =~= old_views + seq![content@]);
                                }
                                contents.push(content);
                            } else {
                                proof {
                                    assert(content@.len() == 0);
                                    lemma_prepend_assoc(old_views, seq![], rest);
                                    assert(old_views + Seq::<Seq<char>>::empty() =~= old_views);
                                }
                            }
                            status = ScanStatus::CellEnd;
                        },
                    }
                }
            },
        }
        i = i + 1;
    }
    proof {
        assert(views(contents@) + seq![] =~= views(contents@));
    }
    Ok(contents)
}

} // verus!
