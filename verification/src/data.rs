//! Curve titles and the data matrix.  The curve section's filtered lines
//! name one curve each; the data section's raw lines are tokenized on
//! whitespace runs, flattened, and re-chunked into rows of one token per
//! curve.

use vstd::prelude::*;

use crate::scan::{
    ByteClass, DOT, class_of, find_from, find_marker, is_space, run_end, scan_find, scan_marker,
    scan_run, spec_trim, subvec, trim,
};
use crate::section::{
    clean_from, clean_range, drop1, raw_line_range, raw_lines, section_bounds, section_range,
    views2, views3,
};

verus! {

broadcast use crate::scan::group_scan_bounds;

/// First position at or after `from` where a whitespace run directly
/// followed by a dot begins.
pub open spec fn find_gap_dot(s: Seq<u8>, from: int) -> Option<int>
    decreases s.len() - from,
{
    if from >= s.len() {
        None
    } else if is_space(s[from]) {
        let e = run_end(s, from, ByteClass::Space);
        if e < s.len() && s[e] == DOT {
            Some(from)
        } else if from < e && e <= s.len() {
            find_gap_dot(s, e)
        } else {
            None
        }
    } else {
        find_gap_dot(s, from + 1)
    }
}

/// The curve title of one filtered line: the text before the first
/// whitespace-then-dot pattern, or the whole line when none occurs.  This
/// rule deliberately differs from the property extractor's title rule: no
/// dot normalization is applied.
pub open spec fn header_of(line: Seq<u8>) -> Seq<u8> {
    match find_gap_dot(line, 0) {
        None => line,
        Some(i) => if 0 <= i <= line.len() {
            line.subrange(0, i)
        } else {
            line
        },
    }
}

/// The curve titles: one per filtered line of the curve section after its
/// header line; empty when the document has no curve section.
pub open spec fn spec_headers(blob: Seq<u8>) -> Seq<Seq<u8>> {
    match section_bounds(blob, 67u8) {
        None => Seq::empty(),
        Some((st, en)) => {
            let ls = drop1(clean_from(blob, st, en));
            Seq::new(ls.len(), |i: int| header_of(ls[i]))
        },
    }
}

/// The pieces of `s[from..]` between whitespace runs; a single empty piece
/// when `s[from..]` is empty.
pub open spec fn ws_split(s: Seq<u8>, from: int) -> Seq<Seq<u8>>
    decreases s.len() - from,
{
    if !(0 <= from <= s.len()) {
        Seq::empty()
    } else {
        match find_from(s, from, ByteClass::Space) {
            None => seq![s.subrange(from, s.len() as int)],
            Some(i) => {
                let e = run_end(s, i, ByteClass::Space);
                if from <= i && i < e && e <= s.len() {
                    seq![s.subrange(from, i)] + ws_split(s, e)
                } else {
                    seq![s.subrange(from, s.len() as int)]
                }
            },
        }
    }
}

/// The whitespace-separated tokens of the trimmed lines `ls[from..]`,
/// flattened in order.
pub open spec fn tokens_of_lines(ls: Seq<Seq<u8>>, from: int) -> Seq<Seq<u8>>
    decreases ls.len() - from,
{
    if !(0 <= from < ls.len()) {
        Seq::empty()
    } else {
        ws_split(spec_trim(ls[from]), 0) + tokens_of_lines(ls, from + 1)
    }
}

/// All numeric tokens of the data section: everything after the `~A`
/// marker, minus the marker's own line, trimmed line by line and split on
/// whitespace runs.
pub open spec fn data_tokens(blob: Seq<u8>) -> Seq<Seq<u8>> {
    match find_marker(blob, 0, 65u8) {
        None => Seq::empty(),
        Some(i) => {
            let ls = drop1(raw_lines(blob, i + 2, blob.len() as int));
            tokens_of_lines(ls, 0)
        },
    }
}

/// `toks[from..]` cut into consecutive chunks of `n` tokens; the final
/// chunk keeps whatever remains, so it may be shorter.  A chunk width of
/// zero yields no chunks.
pub open spec fn chunk(toks: Seq<Seq<u8>>, n: int, from: int) -> Seq<Seq<Seq<u8>>>
    decreases toks.len() - from,
{
    if n <= 0 || from < 0 || from >= toks.len() {
        Seq::empty()
    } else if toks.len() - from <= n {
        seq![toks.subrange(from, toks.len() as int)]
    } else {
        seq![toks.subrange(from, from + n)] + chunk(toks, n, from + n)
    }
}

/// The data matrix: the flat token sequence re-chunked into rows as wide as
/// the curve count.  When the token count is not an exact multiple of the
/// curve count, the final row is left short: the truncation is handed
/// through rather than padded or rejected.
pub open spec fn spec_data(blob: Seq<u8>) -> Seq<Seq<Seq<u8>>> {
    chunk(data_tokens(blob), spec_headers(blob).len() as int, 0)
}

/// Position of the first header equal to `name` at or after `from`.
pub open spec fn header_index(hs: Seq<Seq<u8>>, name: Seq<u8>, from: int) -> Option<int>
    decreases hs.len() - from,
{
    if from >= hs.len() {
        None
    } else if 0 <= from && hs[from] == name {
        Some(from)
    } else {
        header_index(hs, name, from + 1)
    }
}

/// The entries of column `idx` over the rows `rows[from..]`; a row too
/// short to reach the column is skipped.
pub open spec fn column_from(rows: Seq<Seq<Seq<u8>>>, idx: int, from: int) -> Seq<Seq<u8>>
    decreases rows.len() - from,
{
    if !(0 <= from < rows.len()) {
        Seq::empty()
    } else {
        let head = if 0 <= idx < rows[from].len() {
            seq![rows[from][idx]]
        } else {
            Seq::empty()
        };
        head + column_from(rows, idx, from + 1)
    }
}

/// The tokens of the column titled `name`, or nothing when no header
/// matches.
pub open spec fn spec_column(blob: Seq<u8>, name: Seq<u8>) -> Option<Seq<Seq<u8>>> {
    match header_index(spec_headers(blob), name, 0) {
        None => None,
        Some(i) => Some(column_from(spec_data(blob), i, 0)),
    }
}

/// Cuts the curve title out of one filtered line.
fn header_exec(line: &[u8]) -> (r: Vec<u8>)
    ensures
        r@ == header_of(line@),
{
    let mut i: usize = 0;
    loop
        invariant
            i <= line@.len(),
            find_gap_dot(line@, 0) == find_gap_dot(line@, i as int),
        decreases line@.len() - i,
    {
        if i >= line.len() {
            return subvec(line, 0, line.len());
        }
        if class_of(line[i], ByteClass::Space) {
            let e = scan_run(line, i, ByteClass::Space);
            proof {
                assert(run_end(line@, i as int, ByteClass::Space) == run_end(
                    line@,
                    i as int + 1,
                    ByteClass::Space,
                ));
            }
            if e < line.len() && line[e] == 46 {
                return subvec(line, 0, i);
            } else {
                i = e;
            }
        } else {
            i = i + 1;
        }
    }
}

/// Collects the curve titles of the document.
pub(crate) fn headers_exec(blob: &[u8]) -> (r: Vec<Vec<u8>>)
    ensures
        views2(r@) == spec_headers(blob@),
{
    match section_range(blob, 67) {
        None => {
            let r: Vec<Vec<u8>> = Vec::new();
            proof {
                assert(views2(r@) =~= spec_headers(blob@));
            }
            r
        },
        Some((st, en)) => {
            let lines = clean_range(blob, st, en);
            let ghost ls = drop1(clean_from(blob@, st as int, en as int));
            let ghost target = Seq::new(ls.len(), |i: int| header_of(ls[i]));
            let mut out: Vec<Vec<u8>> = Vec::new();
            if lines.len() == 0 {
                proof {
                    assert(views2(out@) =~= target);
                }
                return out;
            }
            let mut k: usize = 1;
            while k < lines.len()
                invariant
                    1 <= k <= lines@.len(),
                    views2(lines@) == clean_from(blob@, st as int, en as int),
                    lines@.len() >= 1,
                    ls == drop1(clean_from(blob@, st as int, en as int)),
                    ls.len() == lines@.len() - 1,
                    target == Seq::new(ls.len(), |i: int| header_of(ls[i])),
                    views2(out@) =~= target.subrange(0, k - 1),
                decreases lines@.len() - k,
            {
                let ghost prev = out@;
                let h = header_exec(lines[k].as_slice());
                let ghost hv = h@;
                proof {
                    assert(ls[k - 1] == views2(lines@)[k as int]);
                    assert(hv == header_of(ls[k - 1]));
                }
                out.push(h);
                proof {
                    assert(views2(out@) =~= views2(prev).push(hv));
                    assert(views2(prev).push(hv) =~= target.subrange(0, k as int));
                }
                k = k + 1;
            }
            proof {
                assert(target.subrange(0, ls.len() as int) =~= target);
                assert(views2(out@) == spec_headers(blob@));
            }
            out
        },
    }
}

/// Splits one trimmed line into its whitespace-separated tokens.
fn ws_split_exec(line: &[u8]) -> (r: Vec<Vec<u8>>)
    ensures
        views2(r@) == ws_split(line@, 0),
{
    let mut out: Vec<Vec<u8>> = Vec::new();
    let mut pos: usize = 0;
    proof {
        assert(views2(out@) =~= Seq::<Seq<u8>>::empty());
    }
    loop
        invariant
            pos <= line@.len(),
            views2(out@) + ws_split(line@, pos as int) == ws_split(line@, 0),
        decreases line@.len() - pos,
    {
        let ghost prev = out@;
        match scan_find(line, pos, ByteClass::Space) {
            None => {
                let piece = subvec(line, pos, line.len());
                let ghost pv = piece@;
                out.push(piece);
                proof {
                    assert(views2(out@) =~= views2(prev).push(pv));
                    assert(ws_split(line@, pos as int) == seq![pv]);
                    assert(views2(prev).push(pv) =~= views2(prev) + seq![pv]);
                }
                return out;
            },
            Some(i) => {
                let e = scan_run(line, i, ByteClass::Space);
                proof {
                    assert(run_end(line@, i as int, ByteClass::Space) == run_end(
                        line@,
                        i as int + 1,
                        ByteClass::Space,
                    ));
                }
                let piece = subvec(line, pos, i);
                let ghost pv = piece@;
                out.push(piece);
                proof {
                    let rest = ws_split(line@, e as int);
                    assert(views2(out@) =~= views2(prev).push(pv));
                    assert(ws_split(line@, pos as int) == seq![pv] + rest);
                    assert(views2(prev).push(pv) + rest =~= views2(prev) + (seq![pv] + rest));
                }
                pos = e;
            },
        }
    }
}

/// Collects the flat token sequence of the data section.
pub(crate) fn data_tokens_exec(blob: &[u8]) -> (r: Vec<Vec<u8>>)
    ensures
        views2(r@) == data_tokens(blob@),
{
    match scan_marker(blob, 0, 65) {
        None => {
            let r: Vec<Vec<u8>> = Vec::new();
            proof {
                assert(views2(r@) =~= data_tokens(blob@));
            }
            r
        },
        Some(i) => {
            let n = blob.len();
            proof {
                assert(i + 2 <= n);
            }
            let lines = raw_line_range(blob, i + 2, n);
            let ghost ls = drop1(raw_lines(blob@, i + 2 as int, blob@.len() as int));
            let mut out: Vec<Vec<u8>> = Vec::new();
            if lines.len() == 0 {
                proof {
                    assert(views2(out@) + tokens_of_lines(ls, 0) =~= data_tokens(blob@));
                    assert(views2(out@) =~= data_tokens(blob@));
                }
                return out;
            }
            let mut k: usize = 1;
            while k < lines.len()
                invariant
                    1 <= k <= lines@.len(),
                    views2(lines@) == raw_lines(blob@, i + 2 as int, blob@.len() as int),
                    lines@.len() >= 1,
                    ls == drop1(raw_lines(blob@, i + 2 as int, blob@.len() as int)),
                    ls.len() == lines@.len() - 1,
                    views2(out@) + tokens_of_lines(ls, k - 1) == tokens_of_lines(ls, 0),
                decreases lines@.len() - k,
            {
                let ghost prev = out@;
                let t = trim(lines[k].as_slice());
                proof {
                    assert(ls[k - 1] == views2(lines@)[k as int]);
                    assert(t@ == spec_trim(ls[k - 1]));
                }
                let toks = ws_split_exec(t.as_slice());
                let ghost tv = views2(toks@);
                let mut j: usize = 0;
                while j < toks.len()
                    invariant
                        j <= toks@.len(),
                        tv == views2(toks@),
                        views2(out@) == views2(prev) + tv.subrange(0, j as int),
                    decreases toks@.len() - j,
                {
                    let ghost mid = out@;
                    let piece = crate::scan::copy_bytes(toks[j].as_slice());
                    proof {
                        assert(piece@ == tv[j as int]);
                    }
                    out.push(piece);
                    proof {
                        assert(views2(out@) =~= views2(mid).push(tv[j as int]));
                        assert(views2(mid).push(tv[j as int]) =~= views2(prev) + tv.subrange(
                            0,
                            j + 1 as int,
                        ));
                    }
                    j = j + 1;
                }
                proof {
                    assert(tv.subrange(0, tv.len() as int) =~= tv);
                    assert(tokens_of_lines(ls, k - 1) == ws_split(spec_trim(ls[k - 1]), 0)
                        + tokens_of_lines(ls, k as int));
                    assert((views2(prev) + tv) + tokens_of_lines(ls, k as int) =~= views2(prev) + (
                    tv + tokens_of_lines(ls, k as int)));
                }
                k = k + 1;
            }
            out
        },
    }
}

/// Chunks the flat token sequence into rows of `n` tokens.
pub(crate) fn chunk_exec(toks: Vec<Vec<u8>>, n: usize) -> (r: Vec<Vec<Vec<u8>>>)
    ensures
        views3(r@) == chunk(views2(toks@), n as int, 0),
{
    let mut out: Vec<Vec<Vec<u8>>> = Vec::new();
    let ghost tv = views2(toks@);
    if n == 0 {
        proof {
            assert(views3(out@) =~= chunk(tv, 0, 0));
        }
        return out;
    }
    let mut from: usize = 0;
    proof {
        assert(views3(out@) =~= Seq::<Seq<Seq<u8>>>::empty());
    }
    while from < toks.len()
        invariant
            n >= 1,
            from <= toks@.len(),
            tv == views2(toks@),
            views3(out@) + chunk(tv, n as int, from as int) == chunk(tv, n as int, 0),
        decreases toks@.len() - from,
    {
        let upto = if toks.len() - from <= n {
            toks.len()
        } else {
            from + n
        };
        let mut row: Vec<Vec<u8>> = Vec::new();
        let mut j: usize = from;
        proof {
            assert(views2(row@) =~= tv.subrange(from as int, from as int));
        }
        while j < upto
            invariant
                from <= j <= upto <= toks@.len(),
                tv == views2(toks@),
                views2(row@) == tv.subrange(from as int, j as int),
            decreases upto - j,
        {
            let ghost mid = row@;
            let piece = crate::scan::copy_bytes(toks[j].as_slice());
            proof {
                assert(piece@ == tv[j as int]);
            }
            row.push(piece);
            proof {
                assert(views2(row@) =~= views2(mid).push(tv[j as int]));
                assert(views2(mid).push(tv[j as int]) =~= tv.subrange(from as int, j + 1 as int));
            }
            j = j + 1;
        }
        let ghost prev = out@;
        let ghost rv = views2(row@);
        out.push(row);
        proof {
            let rest = chunk(tv, n as int, upto as int);
            assert(views3(out@) =~= views3(prev).push(rv));
            if tv.len() - from <= n {
                assert(chunk(tv, n as int, from as int) == seq![rv]);
                assert(views3(prev).push(rv) =~= views3(prev) + seq![rv]);
            } else {
                assert(chunk(tv, n as int, from as int) == seq![rv] + rest);
                assert(views3(prev).push(rv) + rest =~= views3(prev) + (seq![rv] + rest));
            }
        }
        from = upto;
    }
    out
}

} // verus!
