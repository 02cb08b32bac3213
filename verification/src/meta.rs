//! Metadata decoding: the version section's first two entry lines carry the
//! specification version and the wrap-mode flag.  Each line is tokenized on
//! whitespace runs and colons, and the second token is the field's raw value.
//! The version token must be a well-formed floating-point literal; the wrap
//! token is compared case-insensitively to "yes".

use vstd::prelude::*;

use crate::scan::{
    ByteClass, COLON, DOT, bytes_eq, find_from, run_end, scan_find, scan_run, subvec,
};
use crate::section::{clean_from, clean_range, first_section_bounds, first_section_range, views2};

verus! {

broadcast use crate::scan::group_scan_bounds;

/// The second token of an entry line, where tokens are separated by
/// whitespace runs or by a colon with optional leading whitespace, and at
/// most three tokens are formed; the empty sequence when no second token
/// exists.
pub open spec fn meta_token(s: Seq<u8>) -> Seq<u8> {
    match find_from(s, 0, ByteClass::SpaceOrColon) {
        None => Seq::empty(),
        Some(p) => {
            let e1 = if s[p] == COLON {
                p + 1
            } else {
                run_end(s, p, ByteClass::Space)
            };
            match find_from(s, e1, ByteClass::SpaceOrColon) {
                None => s.subrange(e1, s.len() as int),
                Some(p2) => s.subrange(e1, p2),
            }
        },
    }
}

/// ASCII lower-casing of one byte.
pub open spec fn lower_byte(b: u8) -> u8 {
    if 65 <= b && b <= 90 {
        (b + 32) as u8
    } else {
        b
    }
}

/// ASCII lower-casing of a byte sequence.
pub open spec fn lower_seq(s: Seq<u8>) -> Seq<u8> {
    s.map_values(|b: u8| lower_byte(b))
}

pub open spec fn yes_word() -> Seq<u8> {
    seq![121u8, 101, 115]
}

pub open spec fn inf_word() -> Seq<u8> {
    seq![105u8, 110, 102]
}

pub open spec fn infinity_word() -> Seq<u8> {
    seq![105u8, 110, 102, 105, 110, 105, 116, 121]
}

pub open spec fn nan_word() -> Seq<u8> {
    seq![110u8, 97, 110]
}

/// Length of an optional leading `+` or `-`.
pub open spec fn sign_len(s: Seq<u8>) -> int {
    if s.len() > 0 && (s[0] == 43 || s[0] == 45) {
        1
    } else {
        0
    }
}

/// Whether `s[from..]` is empty or a well-formed exponent part: `e` or `E`,
/// an optional sign, and at least one digit reaching the end.
pub open spec fn exp_part_ok(s: Seq<u8>, from: int) -> bool {
    if from == s.len() {
        true
    } else if 0 <= from < s.len() && (s[from] == 101 || s[from] == 69) {
        let es = if from + 1 < s.len() && (s[from + 1] == 43 || s[from + 1] == 45) {
            from + 2
        } else {
            from + 1
        };
        let de = run_end(s, es, ByteClass::Digit);
        de > es && de == s.len()
    } else {
        false
    }
}

/// Whether `s` (with any sign already removed) is a well-formed decimal
/// number: digits with an optional dot and fraction, at least one digit in
/// all, and an optional exponent part.
pub open spec fn is_number_token(s: Seq<u8>) -> bool {
    let d1 = run_end(s, 0, ByteClass::Digit);
    if d1 < s.len() && s[d1] == DOT {
        let d2 = run_end(s, d1 + 1, ByteClass::Digit);
        (d1 > 0 || d2 > d1 + 1) && exp_part_ok(s, d2)
    } else {
        d1 > 0 && exp_part_ok(s, d1)
    }
}

/// Whether `s` is a well-formed floating-point literal: an optional sign
/// followed by `inf`, `infinity` or `nan` in any case, or by a decimal
/// number with optional fraction and exponent.
pub open spec fn is_float_token(s: Seq<u8>) -> bool {
    let b = s.subrange(sign_len(s), s.len() as int);
    lower_seq(b) == inf_word() || lower_seq(b) == infinity_word() || lower_seq(b) == nan_word()
        || is_number_token(b)
}

/// The version and wrap tokens of the document: the second tokens of the
/// first two entry lines of the first `~` section.  A missing line yields an
/// empty token; a document without any `~` sentinel has no metadata at all.
pub open spec fn spec_metadata(blob: Seq<u8>) -> Option<(Seq<u8>, Seq<u8>)> {
    match first_section_bounds(blob) {
        None => None,
        Some((st, en)) => {
            let ls = clean_from(blob, st, en);
            let vt = if ls.len() >= 2 {
                meta_token(ls[1])
            } else {
                Seq::empty()
            };
            let wt = if ls.len() >= 3 {
                meta_token(ls[2])
            } else {
                Seq::empty()
            };
            Some((vt, wt))
        },
    }
}

/// The validated version token, when the document has metadata and the
/// token is a well-formed floating-point literal.
pub open spec fn spec_version(blob: Seq<u8>) -> Option<Seq<u8>> {
    match spec_metadata(blob) {
        None => None,
        Some((vt, wt)) => if is_float_token(vt) {
            Some(vt)
        } else {
            None
        },
    }
}

/// The wrap-mode flag: true exactly when the wrap token equals "yes" after
/// ASCII lower-casing.
pub open spec fn spec_wrap(blob: Seq<u8>) -> bool {
    match spec_metadata(blob) {
        None => false,
        Some((vt, wt)) => lower_seq(wt) == yes_word(),
    }
}

/// Extracts the second token of an entry line.
pub(crate) fn meta_token_exec(v: &[u8]) -> (r: Vec<u8>)
    ensures
        r@ == meta_token(v@),
{
    match scan_find(v, 0, ByteClass::SpaceOrColon) {
        None => Vec::new(),
        Some(p) => {
            let e1 = if v[p] == 58 {
                p + 1
            } else {
                scan_run(v, p, ByteClass::Space)
            };
            match scan_find(v, e1, ByteClass::SpaceOrColon) {
                None => subvec(v, e1, v.len()),
                Some(p2) => subvec(v, e1, p2),
            }
        },
    }
}

/// ASCII lower-casing of a byte slice.
pub(crate) fn lower_bytes(v: &[u8]) -> (r: Vec<u8>)
    ensures
        r@ == lower_seq(v@),
{
    let mut out: Vec<u8> = Vec::new();
    let mut i: usize = 0;
    while i < v.len()
        invariant
            i <= v@.len(),
            out@ == lower_seq(v@.subrange(0, i as int)),
        decreases v@.len() - i,
    {
        let b = v[i];
        let lb: u8 = if 65 <= b && b <= 90 {
            b + 32
        } else {
            b
        };
        out.push(lb);
        proof {
            assert(lower_seq(v@.subrange(0, i + 1 as int)) =~= lower_seq(
                v@.subrange(0, i as int),
            ).push(lower_byte(v@[i as int])));
        }
        i = i + 1;
    }
    proof {
        assert(v@.subrange(0, v@.len() as int) =~= v@);
    }
    out
}

/// Decides whether a token is a well-formed floating-point literal.
pub fn is_float_literal(v: &[u8]) -> (r: bool)
    ensures
        r == is_float_token(v@),
{
    let sl: usize = if v.len() > 0 && (v[0] == 43 || v[0] == 45) {
        1
    } else {
        0
    };
    let b = subvec(v, sl, v.len());
    let low = lower_bytes(&b);
    let inf: Vec<u8> = vec![105u8, 110, 102];
    let infinity: Vec<u8> = vec![105u8, 110, 102, 105, 110, 105, 116, 121];
    let nan: Vec<u8> = vec![110u8, 97, 110];
    proof {
        assert(inf@ =~= inf_word());
        assert(infinity@ =~= infinity_word());
        assert(nan@ =~= nan_word());
    }
    if bytes_eq(low.as_slice(), inf.as_slice()) || bytes_eq(low.as_slice(), infinity.as_slice())
        || bytes_eq(low.as_slice(), nan.as_slice()) {
        return true;
    }
    // decimal number with optional fraction and exponent
    let d1 = scan_run(&b, 0, ByteClass::Digit);
    let mantissa_ok: bool;
    let tail: usize;
    if d1 < b.len() && b[d1] == 46 {
        let d2 = scan_run(&b, d1 + 1, ByteClass::Digit);
        mantissa_ok = d1 > 0 || d2 > d1 + 1;
        tail = d2;
    } else {
        mantissa_ok = d1 > 0;
        tail = d1;
    }
    if !mantissa_ok {
        return false;
    }
    if tail == b.len() {
        return true;
    }
    let e = b[tail];
    if !(e == 101 || e == 69) {
        return false;
    }
    let es = if tail + 1 < b.len() && (b[tail + 1] == 43 || b[tail + 1] == 45) {
        tail + 2
    } else {
        tail + 1
    };
    let de = scan_run(&b, es, ByteClass::Digit);
    de > es && de == b.len()
}

/// Extracts the version and wrap tokens of a document: the version token
/// only when it is a well-formed floating-point literal, and the wrap flag
/// from a case-insensitive comparison with "yes".  Returns nothing when the
/// document has no `~` sentinel at all.
pub fn metadata(raw: &[u8]) -> (r: Option<(Option<Vec<u8>>, bool)>)
    ensures
        r.is_some() == spec_metadata(raw@).is_some(),
        r.is_some() ==> {
            let (vt, wt) = spec_metadata(raw@).unwrap();
            let (ov, w) = r.unwrap();
            &&& match ov {
                Some(t) => is_float_token(vt) && t@ == vt,
                None => !is_float_token(vt),
            }
            &&& w == (lower_seq(wt) == yes_word())
        },
{
    match first_section_range(raw) {
        None => None,
        Some((st, en)) => {
            let ls = clean_range(raw, st, en);
            let vt: Vec<u8> = if ls.len() >= 2 {
                meta_token_exec(ls[1].as_slice())
            } else {
                Vec::new()
            };
            let wt: Vec<u8> = if ls.len() >= 3 {
                meta_token_exec(ls[2].as_slice())
            } else {
                Vec::new()
            };
            proof {
                let lsv = clean_from(raw@, st as int, en as int);
                assert(lsv.len() >= 2 ==> views2(ls@)[1] == ls@[1]@);
                assert(lsv.len() >= 3 ==> views2(ls@)[2] == ls@[2]@);
                assert(vt@ == spec_metadata(raw@).unwrap().0);
                assert(wt@ == spec_metadata(raw@).unwrap().1);
            }
            let ver: Option<Vec<u8>> = if is_float_literal(vt.as_slice()) {
                Some(vt)
            } else {
                None
            };
            let low = lower_bytes(wt.as_slice());
            let yes: Vec<u8> = vec![121u8, 101, 115];
            proof {
                assert(yes@ =~= yes_word());
            }
            let w = bytes_eq(low.as_slice(), yes.as_slice());
            Some((ver, w))
        },
    }
}

} // verus!
