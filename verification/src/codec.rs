//! The persistence codec: a line-oriented text encoding of grids.
//!
//! Each cell renders as the 3-byte token `[x]` (alive) or `[ ]` (dead);
//! the cells of a row are concatenated with no separator, rows are joined
//! by the two-byte sequence carriage-return line-feed, and nothing follows
//! the last row. Decoding accepts exactly that grammar and reports any
//! malformed input instead of truncating it.

use vstd::prelude::*;

use crate::cell::Cell;
use crate::grid::{grid_view, row_view, wf_view, Vectrix};

verus! {

/// The token of a live cell: `[x]`.
pub open spec fn tok_alive() -> Seq<u8> {
    seq![91u8, 120u8, 93u8]
}

/// The token of a dead cell: `[ ]`.
pub open spec fn tok_dead() -> Seq<u8> {
    seq![91u8, 32u8, 93u8]
}

/// The token of one cell.
pub open spec fn tok(b: bool) -> Seq<u8> {
    if b {
        tok_alive()
    } else {
        tok_dead()
    }
}

/// The row separator: carriage return, line feed.
pub open spec fn row_sep() -> Seq<u8> {
    seq![13u8, 10u8]
}

/// The encoding of one row: its cell tokens, concatenated.
pub open spec fn spec_encode_row(r: Seq<bool>) -> Seq<u8>
    decreases r.len(),
{
    if r.len() == 0 {
        Seq::empty()
    } else {
        tok(r[0]) + spec_encode_row(r.subrange(1, r.len() as int))
    }
}

/// The encoding of a grid: its encoded rows joined by the row separator,
/// with no trailing separator.
pub open spec fn spec_encode(g: Seq<Seq<bool>>) -> Seq<u8>
    decreases g.len(),
{
    if g.len() == 0 {
        Seq::empty()
    } else if g.len() == 1 {
        spec_encode_row(g[0])
    } else {
        spec_encode_row(g[0]) + row_sep() + spec_encode(g.subrange(1, g.len() as int))
    }
}

/// The decoding of a byte stream: `None` when the stream is not a
/// concatenation of cell tokens and row separators, otherwise the decoded
/// rows (empty input is one empty row; a separator opens a new row).
pub open spec fn spec_decode(s: Seq<u8>) -> Option<Seq<Seq<bool>>>
    decreases s.len(),
{
    if s.len() == 0 {
        Some(seq![Seq::<bool>::empty()])
    } else if s.len() >= 3 && s.subrange(0, 3) == tok_alive() {
        match spec_decode(s.subrange(3, s.len() as int)) {
            Some(rows) => Some(rows.update(0, seq![true] + rows[0])),
            None => None,
        }
    } else if s.len() >= 3 && s.subrange(0, 3) == tok_dead() {
        match spec_decode(s.subrange(3, s.len() as int)) {
            Some(rows) => Some(rows.update(0, seq![false] + rows[0])),
            None => None,
        }
    } else if s.len() >= 2 && s.subrange(0, 2) == row_sep() {
        match spec_decode(s.subrange(2, s.len() as int)) {
            Some(rows) => Some(seq![Seq::<bool>::empty()] + rows),
            None => None,
        }
    } else {
        None
    }
}

/// A successful decoding always yields at least one row.
pub proof fn lemma_decode_rows_nonempty(s: Seq<u8>)
    ensures
        spec_decode(s) matches Some(rows) ==> rows.len() >= 1,
    decreases s.len(),
{
    if s.len() == 0 {
    } else if s.len() >= 3 && s.subrange(0, 3) == tok_alive() {
        lemma_decode_rows_nonempty(s.subrange(3, s.len() as int));
    } else if s.len() >= 3 && s.subrange(0, 3) == tok_dead() {
        lemma_decode_rows_nonempty(s.subrange(3, s.len() as int));
    } else if s.len() >= 2 && s.subrange(0, 2) == row_sep() {
        lemma_decode_rows_nonempty(s.subrange(2, s.len() as int));
    } else {
    }
}

/// Decoding an encoded row followed by anything else prepends that row's
/// cells to the first row of whatever the rest decodes to.
pub proof fn lemma_decode_prepend_row(r: Seq<bool>, s: Seq<u8>)
    ensures
        spec_decode(spec_encode_row(r) + s) == match spec_decode(s) {
            Some(rows) => Some(rows.update(0, r + rows[0])),
            None => None,
        },
    decreases r.len(),
{
    if r.len() == 0 {
        assert(spec_encode_row(r) + s =~= s);
        match spec_decode(s) {
            Some(rows) => {
                lemma_decode_rows_nonempty(s);
                assert(r + rows[0] =~= rows[0]);
                assert(rows.update(0, rows[0]) =~= rows);
            },
            None => {},
        }
    } else {
        let r1 = r.subrange(1, r.len() as int);
        let t = spec_encode_row(r1) + s;
        let whole = spec_encode_row(r) + s;
        assert(whole =~= tok(r[0]) + t);
        assert(whole.len() >= 3);
        assert(whole.subrange(0, 3) =~= tok(r[0]));
        assert(tok_alive()[1] != tok_dead()[1]);
        assert(whole.subrange(3, whole.len() as int) =~= t);
        lemma_decode_prepend_row(r1, s);
        match spec_decode(s) {
            Some(rows) => {
                lemma_decode_rows_nonempty(s);
                assert(spec_decode(t) == Some(rows.update(0, r1 + rows[0])));
                let mid = rows.update(0, r1 + rows[0]);
                if r[0] {
                    assert(whole.subrange(0, 3) == tok_alive());
                    assert(spec_decode(whole) == Some(mid.update(0, seq![true] + mid[0])));
                } else {
                    assert(whole.subrange(0, 3) != tok_alive());
                    assert(whole.subrange(0, 3) == tok_dead());
                    assert(spec_decode(whole) == Some(mid.update(0, seq![false] + mid[0])));
                }
                assert(seq![r[0]] + (r1 + rows[0]) =~= r + rows[0]);
                assert(mid.update(0, seq![r[0]] + mid[0]) =~= rows.update(0, r + rows[0]));
            },
            None => {
                assert(spec_decode(t) is None);
                if r[0] {
                    assert(whole.subrange(0, 3) == tok_alive());
                } else {
                    assert(whole.subrange(0, 3) != tok_alive());
                    assert(whole.subrange(0, 3) == tok_dead());
                }
                assert(spec_decode(whole) is None);
            },
        }
    }
}

/// Appending one cell to a row appends its token to the row's encoding.
proof fn lemma_encode_row_push(r: Seq<bool>, b: bool)
    ensures
        spec_encode_row(r.push(b)) == spec_encode_row(r) + tok(b),
    decreases r.len(),
{
    let rp = r.push(b);
    if r.len() == 0 {
        assert(rp.subrange(1, rp.len() as int) =~= Seq::<bool>::empty());
        assert(rp[0] == b);
        assert(spec_encode_row(rp) == tok(b) + spec_encode_row(Seq::<bool>::empty()));
        assert(tok(b) + Seq::<u8>::empty() =~= tok(b));
        assert(spec_encode_row(r) + tok(b) =~= tok(b));
    } else {
        let r1 = r.subrange(1, r.len() as int);
        assert(rp.subrange(1, rp.len() as int) =~= r1.push(b));
        lemma_encode_row_push(r1, b);
        assert(tok(rp[0]) + (spec_encode_row(r1) + tok(b)) =~= (tok(r[0]) + spec_encode_row(r1))
            + tok(b));
    }
}

/// Appending one row to a non-empty grid appends a separator and the row's
/// encoding.
proof fn lemma_encode_push_row(g: Seq<Seq<bool>>, r: Seq<bool>)
    requires
        g.len() >= 1,
    ensures
        spec_encode(g.push(r)) == spec_encode(g) + row_sep() + spec_encode_row(r),
    decreases g.len(),
{
    let gp = g.push(r);
    if g.len() == 1 {
        assert(gp.subrange(1, gp.len() as int) =~= seq![r]);
        assert(spec_encode(seq![r]) == spec_encode_row(r));
        assert(spec_encode(gp) =~= spec_encode(g) + row_sep() + spec_encode_row(r));
    } else {
        let g1 = g.subrange(1, g.len() as int);
        assert(gp.subrange(1, gp.len() as int) =~= g1.push(r));
        lemma_encode_push_row(g1, r);
        assert(spec_encode(gp) == spec_encode_row(g[0]) + row_sep() + (spec_encode(g1) + row_sep()
            + spec_encode_row(r)));
        assert(spec_encode_row(g[0]) + row_sep() + (spec_encode(g1) + row_sep()
            + spec_encode_row(r)) =~= (spec_encode_row(g[0]) + row_sep() + spec_encode(g1))
            + row_sep() + spec_encode_row(r));
    }
}

/// Renders the grid in the persisted format, cell tokens concatenated per
/// row and rows joined by the separator, nothing after the last row.
pub fn encode_map(map: &Vectrix) -> (content: Vec<u8>)
    ensures
        content@ == spec_encode(grid_view(*map)),
{
    let ghost g = grid_view(*map);
    let mut content: Vec<u8> = Vec::new();
    let rows = map.len();
    let mut i: usize = 0;
    while i < rows
        invariant
            rows == map@.len(),
            g == grid_view(*map),
            i <= rows,
            content@ == spec_encode(g.take(i as int)),
        decreases rows - i,
    {
        if i > 0 {
            content.push(13);
            content.push(10);
        }
        let ghost pre = content@;
        proof {
            assert(g[i as int] == row_view(map@[i as int]));
        }
        let cols = map[i].len();
        let mut j: usize = 0;
        while j < cols
            invariant
                rows == map@.len(),
                g == grid_view(*map),
                i < rows,
                g[i as int] == row_view(map@[i as int]),
                cols == map@[i as int]@.len(),
                j <= cols,
                content@ == pre + spec_encode_row(g[i as int].take(j as int)),
            decreases cols - j,
        {
            let ghost before = content@;
            match map[i][j] {
                Cell::Alive => {
                    content.push(91);
                    content.push(120);
                    content.push(93);
                },
                Cell::Dead => {
                    content.push(91);
                    content.push(32);
                    content.push(93);
                },
            }
            proof {
                let row = g[i as int];
                let jj = j as int;
                assert(row[jj] == map@[i as int]@[jj].is_alive());
                assert(content@ =~= before + tok(row[jj]));
                lemma_encode_row_push(row.take(jj), row[jj]);
                assert(row.take(jj).push(row[jj]) =~= row.take(jj + 1));
                assert(content@ =~= pre + spec_encode_row(row.take(jj + 1)));
            }
            j = j + 1;
        }
        proof {
            let ii = i as int;
            assert(g[ii].take(cols as int) =~= g[ii]);
            if i == 0 {
                assert(pre =~= Seq::<u8>::empty());
                assert(g.take(1) =~= seq![g[0]]);
                assert(spec_encode(seq![g[0]]) == spec_encode_row(g[0]));
                assert(content@ =~= spec_encode(g.take(1)));
            } else {
                assert(pre =~= spec_encode(g.take(ii)) + row_sep());
                lemma_encode_push_row(g.take(ii), g[ii]);
                assert(g.take(ii).push(g[ii]) =~= g.take(ii + 1));
                assert(content@ =~= spec_encode(g.take(ii + 1)));
            }
        }
        i = i + 1;
    }
    proof {
        assert(g.take(rows as int) =~= g);
    }
    content
}

/// The error a failed decoding reports.
#[derive(Clone, Copy, PartialEq, Eq, Structural, Debug)]
pub enum CodecError {
    /// The input leaves tokens over, or its rows do not form a rectangular
    /// grid with at least one column.
    MalformedEncoding,
}

/// How a partially built grid combines with the decoding of the remaining
/// input: the first remaining row continues the last built row.
spec fn glue(done: Seq<Seq<bool>>, rest: Option<Seq<Seq<bool>>>) -> Option<Seq<Seq<bool>>> {
    match rest {
        Some(rows) => Some(
            done.drop_last() + seq![done.last() + rows[0]] + rows.subrange(1, rows.len() as int),
        ),
        None => None,
    }
}

/// Before anything is consumed, one empty row glued to the whole decoding
/// is the whole decoding.
proof fn lemma_glue_start(s: Seq<u8>)
    ensures
        glue(seq![Seq::<bool>::empty()], spec_decode(s)) == spec_decode(s),
{
    match spec_decode(s) {
        Some(rows) => {
            lemma_decode_rows_nonempty(s);
            let done = seq![Seq::<bool>::empty()];
            assert(done.drop_last() =~= Seq::<Seq<bool>>::empty());
            assert(done.last() + rows[0] =~= rows[0]);
            assert(done.drop_last() + seq![done.last() + rows[0]] + rows.subrange(
                1,
                rows.len() as int,
            ) =~~= rows);
        },
        None => {},
    }
}

/// When the input is exhausted, the built rows are the decoding.
proof fn lemma_glue_end(done: Seq<Seq<bool>>)
    requires
        done.len() >= 1,
    ensures
        glue(done, spec_decode(Seq::<u8>::empty())) == Some(done),
{
    let rows = seq![Seq::<bool>::empty()];
    assert(spec_decode(Seq::<u8>::empty()) == Some(rows));
    assert(rows.subrange(1, 1) =~= Seq::<Seq<bool>>::empty());
    assert(done.last() + rows[0] =~= done.last());
    assert(done.drop_last() + seq![done.last() + rows[0]] + rows.subrange(1, 1) =~~= done);
}

/// Consuming one cell token extends the last built row by that cell.
proof fn lemma_glue_extend(done: Seq<Seq<bool>>, b: bool, rest: Seq<u8>)
    requires
        done.len() >= 1,
        rest.len() >= 3,
        rest.subrange(0, 3) == tok(b),
    ensures
        glue(done, spec_decode(rest)) == glue(
            done.update(done.len() - 1, done.last().push(b)),
            spec_decode(rest.subrange(3, rest.len() as int)),
        ),
{
    let rest3 = rest.subrange(3, rest.len() as int);
    assert(tok_alive()[1] != tok_dead()[1]);
    if b {
        assert(rest.subrange(0, 3) == tok_alive());
    } else {
        assert(rest.subrange(0, 3) != tok_alive());
        assert(rest.subrange(0, 3) == tok_dead());
    }
    let newdone = done.update(done.len() - 1, done.last().push(b));
    match spec_decode(rest3) {
        Some(rows) => {
            lemma_decode_rows_nonempty(rest3);
            assert(spec_decode(rest) == Some(rows.update(0, seq![b] + rows[0])));
            let lifted = rows.update(0, seq![b] + rows[0]);
            assert(lifted.subrange(1, lifted.len() as int) =~= rows.subrange(
                1,
                rows.len() as int,
            ));
            assert(newdone.drop_last() =~= done.drop_last());
            assert(newdone.last() == done.last().push(b));
            assert(done.last() + lifted[0] =~= newdone.last() + rows[0]);
            assert(done.drop_last() + seq![done.last() + lifted[0]] + lifted.subrange(
                1,
                lifted.len() as int,
            ) =~~= newdone.drop_last() + seq![newdone.last() + rows[0]] + rows.subrange(
                1,
                rows.len() as int,
            ));
        },
        None => {
            assert(spec_decode(rest) is None);
        },
    }
}

/// Consuming a row separator opens a new, empty built row.
proof fn lemma_glue_newrow(done: Seq<Seq<bool>>, rest: Seq<u8>)
    requires
        done.len() >= 1,
        rest.len() >= 2,
        rest.subrange(0, 2) == row_sep(),
    ensures
        glue(done, spec_decode(rest)) == glue(
            done.push(Seq::<bool>::empty()),
            spec_decode(rest.subrange(2, rest.len() as int)),
        ),
{
    let rest2 = rest.subrange(2, rest.len() as int);
    assert(rest[0] == 13);
    if rest.len() >= 3 {
        assert(rest.subrange(0, 3)[0] == 13);
        assert(rest.subrange(0, 3) != tok_alive());
        assert(rest.subrange(0, 3) != tok_dead());
    }
    let newdone = done.push(Seq::<bool>::empty());
    match spec_decode(rest2) {
        Some(rows) => {
            lemma_decode_rows_nonempty(rest2);
            assert(spec_decode(rest) == Some(seq![Seq::<bool>::empty()] + rows));
            let lifted = seq![Seq::<bool>::empty()] + rows;
            assert(lifted[0] =~= Seq::<bool>::empty());
            assert(lifted.subrange(1, lifted.len() as int) =~= rows);
            assert(done.last() + lifted[0] =~= done.last());
            assert(newdone.drop_last() =~= done);
            assert(newdone.last() =~= Seq::<bool>::empty());
            assert(newdone.last() + rows[0] =~= rows[0]);
            assert(done.drop_last() + seq![done.last() + lifted[0]] + lifted.subrange(
                1,
                lifted.len() as int,
            ) =~~= done + rows);
            assert(newdone.drop_last() + seq![newdone.last() + rows[0]] + rows.subrange(
                1,
                rows.len() as int,
            ) =~~= done + rows);
        },
        None => {
            assert(spec_decode(rest) is None);
        },
    }
}

/// Round trip: decoding the encoding of any grid with at least one row
/// reproduces the grid exactly, row for row and cell for cell.
pub proof fn lemma_round_trip(g: Seq<Seq<bool>>)
    requires
        g.len() >= 1,
    ensures
        spec_decode(spec_encode(g)) == Some(g),
    decreases g.len(),
{
    if g.len() == 1 {
        assert(spec_encode(g) =~= spec_encode_row(g[0]) + Seq::<u8>::empty());
        lemma_decode_prepend_row(g[0], Seq::<u8>::empty());
        assert(spec_decode(Seq::<u8>::empty()) == Some(seq![Seq::<bool>::empty()]));
        assert(g[0] + Seq::<bool>::empty() =~= g[0]);
        assert(seq![Seq::<bool>::empty()].update(0, g[0]) =~= g);
    } else {
        let g1 = g.subrange(1, g.len() as int);
        let s = row_sep() + spec_encode(g1);
        assert(spec_encode(g) =~= spec_encode_row(g[0]) + s);
        lemma_decode_prepend_row(g[0], s);
        // The rest after the first row starts with the separator, never with
        // a cell token.
        assert(s.len() >= 2);
        assert(s[0] == 13);
        if s.len() >= 3 {
            assert(s.subrange(0, 3)[0] == 13);
            assert(s.subrange(0, 3) != tok_alive());
            assert(s.subrange(0, 3) != tok_dead());
        }
        assert(s.subrange(0, 2) =~= row_sep());
        assert(s.subrange(2, s.len() as int) =~= spec_encode(g1));
        lemma_round_trip(g1);
        assert(spec_decode(s) == Some(seq![Seq::<bool>::empty()] + g1));
        let rows = seq![Seq::<bool>::empty()] + g1;
        assert(g[0] + rows[0] =~= g[0]);
        assert(rows.update(0, g[0]) =~= g);
    }
}

/// Reads the input as a stream of cell tokens and row separators, building
/// the rows as they come; anything outside the grammar, a partial token
/// included, is reported as malformed rather than dropped.
pub fn decode_cells(content: &Vec<u8>) -> (r: Result<Vectrix, CodecError>)
    ensures
        (r is Ok) <==> (spec_decode(content@) is Some),
        r matches Ok(m) ==> Some(grid_view(m)) == spec_decode(content@),
        r matches Err(e) ==> e == CodecError::MalformedEncoding,
{
    let ghost s = content@;
    let n = content.len();
    let mut map: Vectrix = Vec::new();
    map.push(Vec::new());
    proof {
        assert(grid_view(map) =~~= seq![Seq::<bool>::empty()]);
        lemma_glue_start(s);
        assert(s.subrange(0, n as int) =~= s);
    }
    let mut idx: usize = 0;
    while idx < n
        invariant
            n == s.len(),
            s == content@,
            idx <= n,
            map@.len() >= 1,
            spec_decode(s) == glue(grid_view(map), spec_decode(s.subrange(idx as int, n as int))),
        decreases n - idx,
    {
        let ghost done = grid_view(map);
        let ghost rest = s.subrange(idx as int, n as int);
        if n - idx >= 3 && content[idx] == 91 && content[idx + 1] == 120 && content[idx + 2] == 93 {
            let mut row = match map.pop() {
                Some(row) => row,
                None => Vec::new(),
            };
            row.push(Cell::alive());
            map.push(row);
            proof {
                assert(rest[0] == 91 && rest[1] == 120 && rest[2] == 93);
                assert(rest.subrange(0, 3) =~= tok(true));
                lemma_glue_extend(done, true, rest);
                assert(grid_view(map) =~~= done.update(done.len() - 1, done.last().push(true)));
                assert(rest.subrange(3, rest.len() as int) =~= s.subrange(idx + 3, n as int));
            }
            idx = idx + 3;
        } else if n - idx >= 3 && content[idx] == 91 && content[idx + 1] == 32 && content[idx + 2]
            == 93 {
            let mut row = match map.pop() {
                Some(row) => row,
                None => Vec::new(),
            };
            row.push(Cell::dead());
            map.push(row);
            proof {
                assert(rest[0] == 91 && rest[1] == 32 && rest[2] == 93);
                assert(rest.subrange(0, 3) =~= tok(false));
                lemma_glue_extend(done, false, rest);
                assert(grid_view(map) =~~= done.update(done.len() - 1, done.last().push(false)));
                assert(rest.subrange(3, rest.len() as int) =~= s.subrange(idx + 3, n as int));
            }
            idx = idx + 3;
        } else if n - idx >= 2 && content[idx] == 13 && content[idx + 1] == 10 {
            map.push(Vec::new());
            proof {
                assert(rest[0] == 13 && rest[1] == 10);
                assert(rest.subrange(0, 2) =~= row_sep());
                lemma_glue_newrow(done, rest);
                assert(grid_view(map) =~~= done.push(Seq::<bool>::empty()));
                assert(rest.subrange(2, rest.len() as int) =~= s.subrange(idx + 2, n as int));
            }
            idx = idx + 2;
        } else {
            proof {
                assert(rest.len() >= 1);
                if rest.len() >= 3 {
                    assert(rest.subrange(0, 3)[0] == rest[0] && rest.subrange(0, 3)[1] == rest[1]
                        && rest.subrange(0, 3)[2] == rest[2]);
                    assert(rest[0] == s[idx as int] && rest[1] == s[idx + 1] && rest[2] == s[idx
                        + 2]);
                    assert(rest.subrange(0, 3) != tok_alive());
                    assert(rest.subrange(0, 3) != tok_dead());
                }
                if rest.len() >= 2 {
                    assert(rest.subrange(0, 2)[0] == rest[0] && rest.subrange(0, 2)[1] == rest[1]);
                    assert(rest.subrange(0, 2) != row_sep());
                }
                assert(spec_decode(rest) is None);
            }
            return Err(CodecError::MalformedEncoding);
        }
    }
    proof {
        assert(s.subrange(n as int, n as int) =~= Seq::<u8>::empty());
        lemma_glue_end(grid_view(map));
    }
    Ok(map)
}

/// Decodes a persisted grid and validates its shape: every decoded row must
/// have the same, non-zero number of cells. Succeeds exactly on input that
/// decodes to a well-formed grid, which it returns.
pub fn decode_map(content: &Vec<u8>) -> (r: Result<Vectrix, CodecError>)
    ensures
        (r is Ok) <==> (spec_decode(content@) matches Some(rows) && wf_view(rows)),
        r matches Ok(m) ==> {
            &&& Some(grid_view(m)) == spec_decode(content@)
            &&& wf_view(grid_view(m))
        },
        r matches Err(e) ==> e == CodecError::MalformedEncoding,
{
    let map = match decode_cells(content) {
        Ok(map) => map,
        Err(e) => {
            return Err(e);
        },
    };
    proof {
        lemma_decode_rows_nonempty(content@);
    }
    let cols = map[0].len();
    proof {
        assert(grid_view(map)[0] == row_view(map@[0]));
    }
    if cols == 0 {
        proof {
            assert(!wf_view(grid_view(map)));
        }
        return Err(CodecError::MalformedEncoding);
    }
    let rows = map.len();
    let mut i: usize = 0;
    while i < rows
        invariant
            rows == map@.len(),
            i <= rows,
            cols == map@[0]@.len(),
            spec_decode(content@) == Some(grid_view(map)),
            forall|k: int| 0 <= k < i ==> (#[trigger] map@[k])@.len() == cols,
        decreases rows - i,
    {
        if map[i].len() != cols {
            proof {
                assert(grid_view(map)[i as int] == row_view(map@[i as int]));
                assert(grid_view(map)[0] == row_view(map@[0]));
                assert(!wf_view(grid_view(map)));
            }
            return Err(CodecError::MalformedEncoding);
        }
        i = i + 1;
    }
    proof {
        assert forall|k: int| 0 <= k < rows implies #[trigger] grid_view(map)[k].len()
            == grid_view(map)[0].len() by {
            assert(grid_view(map)[k] == row_view(map@[k]));
            assert(grid_view(map)[0] == row_view(map@[0]));
        }
        assert(wf_view(grid_view(map)));
    }
    Ok(map)
}

} // verus!
