//! A verified parser for Log ASCII Standard (LAS) 2.0 well-log files.
//!
//! A LAS document is a line-oriented text buffer split into sections, each
//! introduced by a `~` sentinel: version, well, curve, parameter, other and
//! data.  This crate slices the buffer into sections, filters comment lines,
//! decodes the version and wrap-mode metadata, extracts key/unit/description/
//! value properties, and reshapes the data section into a token matrix with
//! one row per depth sample.  Numeric values are handed out as validated
//! tokens; converting them to machine floating point is left to callers.
//!
//! Every accessor re-parses the immutable buffer, so repeated calls always
//! agree; callers wanting to avoid the recomputation cache results
//! themselves.
#![verifier::loop_isolation(false)]

use vstd::prelude::*;

pub mod data;
pub mod meta;
pub mod prop;
pub mod scan;
pub mod section;

pub use meta::metadata;
pub use prop::{PropMap, WellProp, WellPropV, property};

use crate::data::{
    chunk, chunk_exec, column_from, data_tokens, data_tokens_exec, header_index, headers_exec,
    spec_column, spec_data, spec_headers,
};
use crate::meta::{is_float_token, lower_seq, spec_metadata, spec_version, spec_wrap, yes_word};
use crate::prop::{spec_props};
use crate::scan::{NEWLINE, bytes_eq, copy_bytes, find_marker, push_range};
use crate::section::{
    clean_from, clean_range, drop1, join_lines, lemma_join_push, section_bounds, section_range,
    views2, views3,
};

verus! {

broadcast use crate::scan::group_scan_bounds;

/// The hard failures of the parser: a missing or malformed version
/// declaration, and a column lookup by a title that no header carries.
#[derive(Debug, Clone, Copy, PartialEq, Eq)]
pub enum LasError {
    InvalidVersion,
    FieldNotFound,
}

/// The pairs of title and description views of a title/description list.
pub open spec fn pairs2(s: Seq<(Vec<u8>, Vec<u8>)>) -> Seq<(Seq<u8>, Seq<u8>)> {
    Seq::new(s.len(), |i: int| (s[i].0@, s[i].1@))
}

/// The titles of the curve section paired with their descriptions.
pub open spec fn spec_headers_and_desc(blob: Seq<u8>) -> Seq<(Seq<u8>, Seq<u8>)> {
    match spec_props(blob, 67u8) {
        None => Seq::empty(),
        Some(ps) => Seq::new(ps.len(), |i: int| (ps[i].0, ps[i].1.description)),
    }
}

/// The text of the other section: its filtered lines after the section
/// header line, joined with newlines; empty when the section is absent.
pub open spec fn spec_other(blob: Seq<u8>) -> Seq<u8> {
    match section_bounds(blob, 79u8) {
        None => Seq::empty(),
        Some((st, en)) => join_lines(drop1(clean_from(blob, st, en))),
    }
}

/// Filters a raw text region to its trimmed, non-blank, non-comment lines.
pub fn remove_comment(raw: &[u8]) -> (r: Vec<Vec<u8>>)
    ensures
        views2(r@) == clean_from(raw@, 0, raw@.len() as int),
{
    clean_range(raw, 0, raw.len())
}

/// A parsed well-log document.
pub struct Las {
    /// The raw text of the document.
    pub blob: Vec<u8>,
}

impl Las {
    /// Wraps a document buffer for parsing.
    pub fn new(blob: Vec<u8>) -> (r: Las)
        ensures
            r.blob == blob,
    {
        Las { blob }
    }

    /// The version token of the document.  Returns the token exactly when
    /// the version section is present and its token is a well-formed
    /// floating-point literal; every other document is rejected, an empty
    /// version token included.
    pub fn version(&self) -> (r: Result<Vec<u8>, LasError>)
        ensures
            match r {
                Ok(t) => spec_version(self.blob@) == Some(t@),
                Err(e) => spec_version(self.blob@).is_none() && e == LasError::InvalidVersion,
            },
    {
        match metadata(self.blob.as_slice()) {
            None => Err(LasError::InvalidVersion),
            Some((ov, _)) => match ov {
                Some(t) => Ok(t),
                None => Err(LasError::InvalidVersion),
            },
        }
    }

    /// The wrap-mode flag: true exactly when the wrap token of the version
    /// section equals "yes" case-insensitively; false for every other
    /// token and for a document without metadata.
    pub fn wrap(&self) -> (r: bool)
        ensures
            r == spec_wrap(self.blob@),
    {
        match metadata(self.blob.as_slice()) {
            None => false,
            Some((_, w)) => w,
        }
    }

    /// The curve titles, one per entry line of the curve section, in order.
    pub fn headers(&self) -> (r: Vec<Vec<u8>>)
        ensures
            views2(r@) == spec_headers(self.blob@),
    {
        headers_exec(self.blob.as_slice())
    }

    /// The data matrix: one row of numeric tokens per depth sample, one
    /// column per curve.  When the token count is not an exact multiple of
    /// the curve count the final row is left short; see
    /// `data_row_widths`.
    pub fn data(&self) -> (r: Vec<Vec<Vec<u8>>>)
        ensures
            views3(r@) == spec_data(self.blob@),
    {
        let hs = headers_exec(self.blob.as_slice());
        let toks = data_tokens_exec(self.blob.as_slice());
        chunk_exec(toks, hs.len())
    }

    /// The tokens of the column titled `col`, in row order; a row too short
    /// to reach the column is skipped.  Fails exactly when no header equals
    /// `col`.
    pub fn column(&self, col: &[u8]) -> (r: Result<Vec<Vec<u8>>, LasError>)
        ensures
            match r {
                Ok(c) => spec_column(self.blob@, col@) == Some(views2(c@)),
                Err(e) => spec_column(self.blob@, col@).is_none() && e == LasError::FieldNotFound,
            },
    {
        let hs = self.headers();
        let ghost hsv = spec_headers(self.blob@);
        let mut i: usize = 0;
        let idx: usize;
        loop
            invariant
                i <= hs@.len(),
                views2(hs@) == hsv,
                header_index(hsv, col@, 0) == header_index(hsv, col@, i as int),
            decreases hs@.len() - i,
        {
            if i == hs.len() {
                return Err(LasError::FieldNotFound);
            }
            if bytes_eq(hs[i].as_slice(), col) {
                proof {
                    assert(hsv[i as int] == hs@[i as int]@);
                }
                idx = i;
                break;
            }
            i = i + 1;
        }
        let rows = self.data();
        let ghost dv = spec_data(self.blob@);
        let mut out: Vec<Vec<u8>> = Vec::new();
        let mut k: usize = 0;
        proof {
            assert(views2(out@) =~= Seq::<Seq<u8>>::empty());
        }
        while k < rows.len()
            invariant
                k <= rows@.len(),
                idx < hsv.len(),
                header_index(hsv, col@, 0) == Some(idx as int),
                views3(rows@) == dv,
                views2(out@) + column_from(dv, idx as int, k as int) == column_from(
                    dv,
                    idx as int,
                    0,
                ),
            decreases rows@.len() - k,
        {
            let ghost prev = out@;
            let row = &rows[k];
            proof {
                assert(dv[k as int] == views2(rows@[k as int]@));
            }
            if idx < row.len() {
                let piece = copy_bytes(row[idx].as_slice());
                let ghost pv = piece@;
                out.push(piece);
                proof {
                    assert(pv == dv[k as int][idx as int]);
                    assert(views2(out@) =~= views2(prev).push(pv));
                    assert(column_from(dv, idx as int, k as int) == seq![pv] + column_from(
                        dv,
                        idx as int,
                        k + 1 as int,
                    ));
                    assert(views2(prev).push(pv) + column_from(dv, idx as int, k + 1 as int)
                        =~= views2(prev) + (seq![pv] + column_from(dv, idx as int, k + 1 as int)));
                }
            } else {
                proof {
                    assert(column_from(dv, idx as int, k as int) =~= Seq::<Seq<u8>>::empty()
                        + column_from(dv, idx as int, k + 1 as int));
                }
            }
            k = k + 1;
        }
        Ok(out)
    }

    /// The number of curves.
    pub fn column_count(&self) -> (r: usize)
        ensures
            r == spec_headers(self.blob@).len(),
    {
        let hs = self.headers();
        hs.len()
    }

    /// The number of rows of the data matrix.
    pub fn row_count(&self) -> (r: usize)
        ensures
            r == spec_data(self.blob@).len(),
    {
        let rows = self.data();
        rows.len()
    }

    /// The curve titles paired with their descriptions, in the insertion
    /// order of the titles.
    pub fn headers_and_desc(&self) -> (r: Vec<(Vec<u8>, Vec<u8>)>)
        ensures
            pairs2(r@) == spec_headers_and_desc(self.blob@),
    {
        let key: Vec<u8> = vec![126u8, 67];
        let mut out: Vec<(Vec<u8>, Vec<u8>)> = Vec::new();
        match property(self.blob.as_slice(), key.as_slice()) {
            None => {
                proof {
                    assert(pairs2(out@) =~= spec_headers_and_desc(self.blob@));
                }
                out
            },
            Some(pm) => {
                let ghost ps = spec_props(self.blob@, 67u8).unwrap();
                let ghost target = spec_headers_and_desc(self.blob@);
                proof {
                    assert(target == Seq::new(ps.len(), |i: int| (ps[i].0, ps[i].1.description)));
                }
                let n = pm.len();
                let mut i: usize = 0;
                while i < n
                    invariant
                        i <= n,
                        n == pm@.len(),
                        pm.wf(),
                        pm@ == ps,
                        target == Seq::new(ps.len(), |j: int| (ps[j].0, ps[j].1.description)),
                        pairs2(out@) =~= target.subrange(0, i as int),
                    decreases n - i,
                {
                    let ghost prev = out@;
                    let entry = pm.entry_at(i);
                    let title = copy_bytes(entry.0.as_slice());
                    let description = copy_bytes(entry.1.description.as_slice());
                    proof {
                        assert(title@ == ps[i as int].0);
                        assert(description@ == ps[i as int].1.description);
                    }
                    out.push((title, description));
                    proof {
                        assert(pairs2(out@) =~= pairs2(prev).push(
                            (ps[i as int].0, ps[i as int].1.description),
                        ));
                        assert(pairs2(prev).push((ps[i as int].0, ps[i as int].1.description))
                            =~= target.subrange(0, i + 1 as int));
                    }
                    i = i + 1;
                }
                proof {
                    assert(target.subrange(0, target.len() as int) =~= target);
                }
                out
            },
        }
    }

    /// All property records of the curve section; empty when the section
    /// is absent.
    pub fn curve_params(&self) -> (r: PropMap)
        ensures
            r.wf(),
            match spec_props(self.blob@, 67u8) {
                None => r@ == Seq::<(Seq<u8>, WellPropV)>::empty(),
                Some(ps) => r@ == ps,
            },
    {
        let key: Vec<u8> = vec![126u8, 67];
        match property(self.blob.as_slice(), key.as_slice()) {
            None => PropMap::new(),
            Some(pm) => pm,
        }
    }

    /// All property records of the well section; empty when the section is
    /// absent.
    pub fn well_info(&self) -> (r: PropMap)
        ensures
            r.wf(),
            match spec_props(self.blob@, 87u8) {
                None => r@ == Seq::<(Seq<u8>, WellPropV)>::empty(),
                Some(ps) => r@ == ps,
            },
    {
        let key: Vec<u8> = vec![126u8, 87];
        match property(self.blob.as_slice(), key.as_slice()) {
            None => PropMap::new(),
            Some(pm) => pm,
        }
    }

    /// All property records of the parameter section; empty when the
    /// section is absent.
    pub fn log_params(&self) -> (r: PropMap)
        ensures
            r.wf(),
            match spec_props(self.blob@, 80u8) {
                None => r@ == Seq::<(Seq<u8>, WellPropV)>::empty(),
                Some(ps) => r@ == ps,
            },
    {
        let key: Vec<u8> = vec![126u8, 80];
        match property(self.blob.as_slice(), key.as_slice()) {
            None => PropMap::new(),
            Some(pm) => pm,
        }
    }

    /// The text of the other section, its filtered lines joined with
    /// newlines; empty exactly when the section is absent or has no
    /// content lines.
    pub fn other(&self) -> (r: Vec<u8>)
        ensures
            r@ == spec_other(self.blob@),
    {
        match section_range(self.blob.as_slice(), 79) {
            None => Vec::new(),
            Some((st, en)) => {
                let lines = clean_range(self.blob.as_slice(), st, en);
                let ghost ls = drop1(clean_from(self.blob@, st as int, en as int));
                let mut out: Vec<u8> = Vec::new();
                if lines.len() <= 1 {
                    proof {
                        assert(ls.len() == 0);
                        assert(join_lines(ls) =~= Seq::<u8>::empty());
                    }
                    return out;
                }
                let mut k: usize = 1;
                while k < lines.len()
                    invariant
                        1 <= k <= lines@.len(),
                        lines@.len() >= 2,
                        views2(lines@) == clean_from(self.blob@, st as int, en as int),
                        ls == drop1(clean_from(self.blob@, st as int, en as int)),
                        ls.len() == lines@.len() - 1,
                        out@ == join_lines(ls.subrange(0, k - 1)),
                    decreases lines@.len() - k,
                {
                    let ghost prefix = ls.subrange(0, k - 1);
                    let ghost line = ls[k - 1];
                    proof {
                        assert(line == views2(lines@)[k as int]);
                        assert(ls.subrange(0, k as int) =~= prefix.push(line));
                        lemma_join_push(prefix, line);
                    }
                    if k > 1 {
                        out.push(10);
                    }
                    let lk = lines[k].as_slice();
                    push_range(&mut out, lk, 0, lk.len());
                    proof {
                        assert(lk@.subrange(0, lk@.len() as int) =~= lk@);
                        if k > 1 {
                            assert(out@ =~= join_lines(prefix) + seq![NEWLINE] + line);
                        } else {
                            assert(prefix.len() == 0);
                            assert(out@ =~= line);
                        }
                    }
                    k = k + 1;
                }
                proof {
                    assert(ls.subrange(0, ls.len() as int) =~= ls);
                }
                out
            },
        }
    }
}

/// Whether the document carries a well-formed version section: metadata is
/// present and the version token is a floating-point literal.
pub open spec fn wellformed_version(blob: Seq<u8>) -> bool {
    spec_metadata(blob).is_some() && is_float_token(spec_metadata(blob).unwrap().0)
}

/// On every document with a well-formed version section, the version is
/// returned rather than an error, and it is exactly the section's version
/// token; the wrap flag is in every case the result of the case-insensitive
/// comparison of the wrap token with "yes".
pub proof fn version_succeeds_when_wellformed(blob: Seq<u8>)
    requires
        wellformed_version(blob),
    ensures
        spec_version(blob) == Some(spec_metadata(blob).unwrap().0),
        spec_wrap(blob) == (lower_seq(spec_metadata(blob).unwrap().1) == yes_word()),
{
}

/// A version section whose version token is empty is a hard failure: the
/// empty token is no floating-point literal, so no default is substituted.
pub proof fn empty_version_token_rejected(blob: Seq<u8>)
    requires
        spec_metadata(blob).is_some(),
        spec_metadata(blob).unwrap().0 == Seq::<u8>::empty(),
    ensures
        spec_version(blob).is_none(),
{
    let t = spec_metadata(blob).unwrap().0;
    assert(t.subrange(crate::meta::sign_len(t), t.len() as int) =~= Seq::<u8>::empty());
    assert(lower_seq(Seq::<u8>::empty()).len() == 0);
    assert(!is_float_token(t));
}

/// Every row of the data matrix is at most as wide as the curve count,
/// every row but the last is exactly that wide, and no row is empty.  The
/// final row alone may be short, when the token count is not an exact
/// multiple of the curve count.
pub proof fn lemma_chunk_widths(toks: Seq<Seq<u8>>, n: int, from: int)
    requires
        n >= 1,
    ensures
        forall|i: int| #![auto]
            0 <= i < chunk(toks, n, from).len() ==> {
                1 <= chunk(toks, n, from)[i].len() <= n && (i < chunk(toks, n, from).len() - 1
                    ==> chunk(toks, n, from)[i].len() == n)
            },
    decreases toks.len() - from,
{
    if !(from < 0 || from >= toks.len()) {
        if toks.len() - from <= n {
            assert(chunk(toks, n, from) == seq![toks.subrange(from, toks.len() as int)]);
            assert(chunk(toks, n, from)[0].len() == toks.len() - from);
        } else {
            lemma_chunk_widths(toks, n, from + n);
            let rows = chunk(toks, n, from);
            let rest = chunk(toks, n, from + n);
            assert(rows == seq![toks.subrange(from, from + n)] + rest);
            assert(rest.len() >= 1) by {
                if toks.len() - (from + n) <= n {
                    assert(rest == seq![toks.subrange(from + n, toks.len() as int)]);
                } else {
                    assert(rest == seq![toks.subrange(from + n, from + n + n)] + chunk(
                        toks,
                        n,
                        from + n + n,
                    ));
                }
            }
            assert(rows[0].len() == n);
            assert forall|i: int| #![auto] 1 <= i < rows.len() implies {
                1 <= rows[i].len() <= n && (i < rows.len() - 1 ==> rows[i].len() == n)
            } by {
                assert(rows[i] == rest[i - 1]);
            }
        }
    }
}

/// The shape of the data matrix: with at least one curve, every row holds
/// at least one and at most curve-count tokens, and only the final row may
/// hold fewer than curve-count tokens.
pub proof fn data_row_widths(blob: Seq<u8>)
    ensures
        spec_headers(blob).len() >= 1 ==> forall|i: int| #![auto]
            0 <= i < spec_data(blob).len() ==> {
                1 <= spec_data(blob)[i].len() <= spec_headers(blob).len() && (i < spec_data(
                    blob,
                ).len() - 1 ==> spec_data(blob)[i].len() == spec_headers(blob).len())
            },
{
    if spec_headers(blob).len() >= 1 {
        lemma_chunk_widths(data_tokens(blob), spec_headers(blob).len() as int, 0);
    }
}

/// Property extraction is a function of the buffer alone: two extractions
/// from the same buffer yield the same mapping.
pub proof fn property_extraction_repeatable(
    blob: Seq<u8>,
    first: Seq<(Seq<u8>, WellPropV)>,
    second: Seq<(Seq<u8>, WellPropV)>,
)
    requires
        spec_props(blob, 67u8) == Some(first),
        spec_props(blob, 67u8) == Some(second),
    ensures
        first == second,
{
}

/// A document without the other-section marker yields the empty text.
pub proof fn missing_other_is_empty(blob: Seq<u8>)
    requires
        find_marker(blob, 0, 79u8).is_none(),
    ensures
        spec_other(blob) == Seq::<u8>::empty(),
{
}

/// The curve count equals the number of headers: any header list and any
/// count obtained from the same buffer agree.
pub proof fn column_count_matches_headers(blob: Seq<u8>, hs: Seq<Seq<u8>>, n: int)
    requires
        hs == spec_headers(blob),
        n == spec_headers(blob).len(),
    ensures
        n == hs.len(),
{
}

/// The row count equals the number of rows of the data matrix: any matrix
/// and any count obtained from the same buffer agree.
pub proof fn row_count_matches_data(blob: Seq<u8>, rows: Seq<Seq<Seq<u8>>>, n: int)
    requires
        rows == spec_data(blob),
        n == spec_data(blob).len(),
    ensures
        n == rows.len(),
{
}

} // verus!
