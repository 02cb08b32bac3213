//! Section slicing and line filtering.  A section starts right after its
//! `~X` marker and runs to the next `~` or the end of the buffer.  The line
//! filter trims every line and drops blank lines and `#` comment lines.

use vstd::prelude::*;

use crate::scan::{
    ByteClass, HASH, NEWLINE, find_from, find_marker, scan_find, scan_marker, spec_trim, subvec,
    trim_range,
};

verus! {

broadcast use crate::scan::group_scan_bounds;

/// The views of a sequence of byte vectors.
pub open spec fn views2(s: Seq<Vec<u8>>) -> Seq<Seq<u8>> {
    Seq::new(s.len(), |i: int| s[i]@)
}

/// The views of a sequence of token-vector rows.
pub open spec fn views3(s: Seq<Vec<Vec<u8>>>) -> Seq<Seq<Seq<u8>>> {
    Seq::new(s.len(), |i: int| views2(s[i]@))
}

/// A sequence without its first element; the empty sequence stays empty.
pub open spec fn drop1<T>(s: Seq<T>) -> Seq<T> {
    if s.len() > 0 {
        s.drop_first()
    } else {
        s
    }
}

/// Bounds of the section opened by `~letter`: from just after the marker to
/// the next `~` or the end of the buffer.
pub open spec fn section_bounds(s: Seq<u8>, letter: u8) -> Option<(int, int)> {
    match find_marker(s, 0, letter) {
        None => None,
        Some(i) => {
            let st = i + 2;
            let en = match find_from(s, st, ByteClass::Tilde) {
                None => s.len() as int,
                Some(j) => j,
            };
            Some((st, en))
        },
    }
}

/// Bounds of the first `~` section of the buffer, whatever its letter; a
/// valid document opens with the version section.
pub open spec fn first_section_bounds(s: Seq<u8>) -> Option<(int, int)> {
    match find_from(s, 0, ByteClass::Tilde) {
        None => None,
        Some(i) => {
            let st = i + 1;
            let en = match find_from(s, st, ByteClass::Tilde) {
                None => s.len() as int,
                Some(j) => j,
            };
            Some((st, en))
        },
    }
}

/// The trimmed, non-blank, non-comment lines of `s[from..to)`, in order.
pub open spec fn clean_from(s: Seq<u8>, from: int, to: int) -> Seq<Seq<u8>>
    decreases to - from,
{
    if from >= to {
        Seq::empty()
    } else {
        let le = match find_from(s, from, ByteClass::Newline) {
            None => to,
            Some(i) => if from <= i && i < to {
                i
            } else {
                to
            },
        };
        let next = if le + 1 <= to {
            le + 1
        } else {
            to
        };
        let t = spec_trim(s.subrange(from, le));
        let rest = clean_from(s, next, to);
        if t.len() > 0 && t[0] != HASH {
            seq![t] + rest
        } else {
            rest
        }
    }
}

/// The raw (untrimmed, unfiltered) lines of `s[from..to)`.
pub open spec fn raw_lines(s: Seq<u8>, from: int, to: int) -> Seq<Seq<u8>>
    decreases to - from,
{
    if from >= to {
        Seq::empty()
    } else {
        let le = match find_from(s, from, ByteClass::Newline) {
            None => to,
            Some(i) => if from <= i && i < to {
                i
            } else {
                to
            },
        };
        let next = if le + 1 <= to {
            le + 1
        } else {
            to
        };
        seq![s.subrange(from, le)] + raw_lines(s, next, to)
    }
}

/// The lines joined with single `\n` separators.
pub open spec fn join_lines(ls: Seq<Seq<u8>>) -> Seq<u8>
    decreases ls.len(),
{
    if ls.len() == 0 {
        Seq::empty()
    } else if ls.len() == 1 {
        ls[0]
    } else {
        ls[0] + seq![NEWLINE] + join_lines(ls.drop_first())
    }
}

pub proof fn lemma_join_push(ls: Seq<Seq<u8>>, x: Seq<u8>)
    ensures
        join_lines(ls.push(x)) == if ls.len() == 0 {
            x
        } else {
            join_lines(ls) + seq![NEWLINE] + x
        },
    decreases ls.len(),
{
    if ls.len() == 0 {
        assert(ls.push(x).len() == 1);
        assert(ls.push(x)[0] == x);
    } else if ls.len() == 1 {
        assert(ls.push(x).drop_first() =~= ls.drop_first().push(x));
        assert(ls.push(x).drop_first().len() == 1);
        assert(ls.push(x).drop_first()[0] == x);
        assert(ls.push(x)[0] == ls[0]);
        assert(join_lines(ls.push(x).drop_first()) == x);
        assert(join_lines(ls.push(x)) == ls[0] + seq![NEWLINE] + x);
        assert(join_lines(ls) == ls[0]);
    } else {
        assert(ls.push(x).drop_first() =~= ls.drop_first().push(x));
        lemma_join_push(ls.drop_first(), x);
        assert(join_lines(ls.push(x)) == ls[0] + seq![NEWLINE] + (join_lines(ls.drop_first())
            + seq![NEWLINE] + x));
        assert(ls[0] + seq![NEWLINE] + (join_lines(ls.drop_first()) + seq![NEWLINE] + x) =~= (ls[0]
            + seq![NEWLINE] + join_lines(ls.drop_first())) + seq![NEWLINE] + x);
    }
}

/// Locates the section opened by `~letter`.
pub(crate) fn section_range(v: &[u8], letter: u8) -> (r: Option<(usize, usize)>)
    ensures
        match r {
            Some((st, en)) => section_bounds(v@, letter) == Some((st as int, en as int)) && st <= en
                <= v@.len(),
            None => section_bounds(v@, letter).is_none(),
        },
{
    let n = v.len();
    match scan_marker(v, 0, letter) {
        None => None,
        Some(i) => {
            proof {
                assert(i + 2 <= n);
            }
            let st = i + 2;
            let en = match scan_find(v, st, ByteClass::Tilde) {
                None => v.len(),
                Some(j) => j,
            };
            Some((st, en))
        },
    }
}

/// Locates the first `~` section.
pub(crate) fn first_section_range(v: &[u8]) -> (r: Option<(usize, usize)>)
    ensures
        match r {
            Some((st, en)) => first_section_bounds(v@) == Some((st as int, en as int)) && st <= en
                <= v@.len(),
            None => first_section_bounds(v@).is_none(),
        },
{
    let n = v.len();
    match scan_find(v, 0, ByteClass::Tilde) {
        None => None,
        Some(i) => {
            proof {
                assert(i + 1 <= n);
            }
            let st = i + 1;
            let en = match scan_find(v, st, ByteClass::Tilde) {
                None => v.len(),
                Some(j) => j,
            };
            Some((st, en))
        },
    }
}

/// Collects the trimmed, non-blank, non-comment lines of `v[lo..hi)`.
pub(crate) fn clean_range(v: &[u8], lo: usize, hi: usize) -> (r: Vec<Vec<u8>>)
    requires
        lo <= hi <= v@.len(),
    ensures
        views2(r@) == clean_from(v@, lo as int, hi as int),
{
    let mut out: Vec<Vec<u8>> = Vec::new();
    let mut i: usize = lo;
    proof {
        assert(views2(out@) =~= Seq::<Seq<u8>>::empty());
    }
    while i < hi
        invariant
            lo <= i <= hi <= v@.len(),
            views2(out@) + clean_from(v@, i as int, hi as int) == clean_from(
                v@,
                lo as int,
                hi as int,
            ),
        decreases hi - i,
    {
        let le = match scan_find(v, i, ByteClass::Newline) {
            Some(j) => if j < hi {
                j
            } else {
                hi
            },
            None => hi,
        };
        let next = if le < hi {
            le + 1
        } else {
            hi
        };
        let ghost prev = out@;
        let t = trim_range(v, i, le);
        let ghost tv = t@;
        let keep = t.len() > 0 && t[0] != 35;
        if keep {
            out.push(t);
            proof {
                assert(views2(out@) =~= views2(prev).push(tv));
            }
        }
        proof {
            let rest = clean_from(v@, next as int, hi as int);
            assert(clean_from(v@, i as int, hi as int) == if tv.len() > 0 && tv[0] != HASH {
                seq![tv] + rest
            } else {
                rest
            });
            if keep {
                assert(views2(prev).push(tv) + rest =~= views2(prev) + (seq![tv] + rest));
            }
        }
        i = next;
    }
    out
}

/// Collects the raw lines of `v[lo..hi)`.
pub(crate) fn raw_line_range(v: &[u8], lo: usize, hi: usize) -> (r: Vec<Vec<u8>>)
    requires
        lo <= hi <= v@.len(),
    ensures
        views2(r@) == raw_lines(v@, lo as int, hi as int),
{
    let mut out: Vec<Vec<u8>> = Vec::new();
    let mut i: usize = lo;
    proof {
        assert(views2(out@) =~= Seq::<Seq<u8>>::empty());
    }
    while i < hi
        invariant
            lo <= i <= hi <= v@.len(),
            views2(out@) + raw_lines(v@, i as int, hi as int) == raw_lines(
                v@,
                lo as int,
                hi as int,
            ),
        decreases hi - i,
    {
        let le = match scan_find(v, i, ByteClass::Newline) {
            Some(j) => if j < hi {
                j
            } else {
                hi
            },
            None => hi,
        };
        let next = if le < hi {
            le + 1
        } else {
            hi
        };
        let ghost prev = out@;
        let piece = subvec(v, i, le);
        let ghost pv = piece@;
        out.push(piece);
        proof {
            let rest = raw_lines(v@, next as int, hi as int);
            assert(views2(out@) =~= views2(prev).push(pv));
            assert(raw_lines(v@, i as int, hi as int) == seq![pv] + rest);
            assert(views2(prev).push(pv) + rest =~= views2(prev) + (seq![pv] + rest));
        }
        i = next;
    }
    out
}

} // verus!
