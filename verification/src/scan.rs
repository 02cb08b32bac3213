//! Byte-level scanning primitives shared by every tokenizer rule: character
//! classes, maximal-run scans, first-occurrence searches and trimming.
//! The input format is line-oriented ASCII text, so all parsing works on
//! byte sequences.

use vstd::prelude::*;

verus! {

/// The section sentinel `~`.
pub const TILDE: u8 = 126;

/// The comment marker `#`.
pub const HASH: u8 = 35;

/// `:`  separates the value field from the description field.
pub const COLON: u8 = 58;

/// `.`  separates the mnemonic from the unit field.
pub const DOT: u8 = 46;

/// `\n` ends a line.
pub const NEWLINE: u8 = 10;

/// ASCII whitespace: space, tab, line feed, vertical tab, form feed,
/// carriage return.
pub open spec fn is_space(b: u8) -> bool {
    b == 32 || b == 9 || b == 10 || b == 11 || b == 12 || b == 13
}

/// ASCII decimal digit.
pub open spec fn is_digit(b: u8) -> bool {
    48 <= b && b <= 57
}

/// ASCII word character: letter, digit or underscore.
pub open spec fn is_word(b: u8) -> bool {
    is_digit(b) || (65 <= b && b <= 90) || (97 <= b && b <= 122) || b == 95
}

/// The character classes the tokenizer rules scan over.
#[derive(Clone, Copy)]
pub enum ByteClass {
    Space,
    Word,
    Digit,
    Dot,
    DotOrSpace,
    SpaceOrColon,
    Tilde,
    Newline,
    Colon,
}

pub open spec fn in_class(c: ByteClass, b: u8) -> bool {
    match c {
        ByteClass::Space => is_space(b),
        ByteClass::Word => is_word(b),
        ByteClass::Digit => is_digit(b),
        ByteClass::Dot => b == DOT,
        ByteClass::DotOrSpace => b == DOT || is_space(b),
        ByteClass::SpaceOrColon => is_space(b) || b == COLON,
        ByteClass::Tilde => b == TILDE,
        ByteClass::Newline => b == NEWLINE,
        ByteClass::Colon => b == COLON,
    }
}

/// End of the maximal run of class `c` bytes starting at `from`.
pub open spec fn run_end(s: Seq<u8>, from: int, c: ByteClass) -> int
    decreases s.len() - from,
{
    if from < s.len() && in_class(c, s[from]) {
        run_end(s, from + 1, c)
    } else {
        from
    }
}

/// First position at or after `from` holding a byte of class `c`.
pub open spec fn find_from(s: Seq<u8>, from: int, c: ByteClass) -> Option<int>
    decreases s.len() - from,
{
    if from >= s.len() {
        None
    } else if in_class(c, s[from]) {
        Some(from)
    } else {
        find_from(s, from + 1, c)
    }
}

/// First position at or after `from` where `~` followed by `letter` occurs.
pub open spec fn find_marker(s: Seq<u8>, from: int, letter: u8) -> Option<int>
    decreases s.len() - from,
{
    if from + 2 > s.len() {
        None
    } else if s[from] == TILDE && s[from + 1] == letter {
        Some(from)
    } else {
        find_marker(s, from + 1, letter)
    }
}

/// Start of the maximal run of whitespace ending just before position `d`.
pub open spec fn ws_back(s: Seq<u8>, d: int) -> int
    decreases d,
{
    if 0 < d && d <= s.len() && is_space(s[d - 1]) {
        ws_back(s, d - 1)
    } else {
        d
    }
}

/// The sequence with leading and trailing whitespace removed.
pub open spec fn spec_trim(s: Seq<u8>) -> Seq<u8> {
    let a = run_end(s, 0, ByteClass::Space);
    let b = ws_back(s, s.len() as int);
    if a < b {
        s.subrange(a, b)
    } else {
        Seq::empty()
    }
}

pub broadcast proof fn lemma_run_end_bounds(s: Seq<u8>, from: int, c: ByteClass)
    ensures
        0 <= from <= s.len() ==> from <= #[trigger] run_end(s, from, c) <= s.len(),
    decreases s.len() - from,
{
    if 0 <= from <= s.len() {
        if from < s.len() && in_class(c, s[from]) {
            lemma_run_end_bounds(s, from + 1, c);
        }
    }
}

pub broadcast proof fn lemma_find_from_bounds(s: Seq<u8>, from: int, c: ByteClass)
    ensures
        0 <= from && (#[trigger] find_from(s, from, c)).is_some() ==> {
            let i = find_from(s, from, c).unwrap();
            from <= i < s.len() && in_class(c, s[i])
        },
    decreases s.len() - from,
{
    if 0 <= from && from < s.len() && !in_class(c, s[from]) {
        lemma_find_from_bounds(s, from + 1, c);
    }
}

pub broadcast proof fn lemma_find_marker_bounds(s: Seq<u8>, from: int, letter: u8)
    ensures
        0 <= from && (#[trigger] find_marker(s, from, letter)).is_some() ==> {
            let i = find_marker(s, from, letter).unwrap();
            from <= i && i + 2 <= s.len()
        },
    decreases s.len() - from,
{
    if 0 <= from && from + 2 <= s.len() && !(s[from] == TILDE && s[from + 1] == letter) {
        lemma_find_marker_bounds(s, from + 1, letter);
    }
}

pub broadcast proof fn lemma_ws_back_bounds(s: Seq<u8>, d: int)
    ensures
        0 <= d ==> 0 <= #[trigger] ws_back(s, d) <= d,
    decreases d,
{
    if 0 < d && d <= s.len() && is_space(s[d - 1]) {
        lemma_ws_back_bounds(s, d - 1);
    }
}

pub broadcast group group_scan_bounds {
    lemma_run_end_bounds,
    lemma_find_from_bounds,
    lemma_find_marker_bounds,
    lemma_ws_back_bounds,
}

/// Decides membership in a character class.
pub fn class_of(b: u8, c: ByteClass) -> (r: bool)
    ensures
        r == in_class(c, b),
{
    match c {
        ByteClass::Space => b == 32 || b == 9 || b == 10 || b == 11 || b == 12 || b == 13,
        ByteClass::Word => (48 <= b && b <= 57) || (65 <= b && b <= 90) || (97 <= b && b <= 122)
            || b == 95,
        ByteClass::Digit => 48 <= b && b <= 57,
        ByteClass::Dot => b == 46,
        ByteClass::DotOrSpace => b == 46 || b == 32 || b == 9 || b == 10 || b == 11 || b == 12
            || b == 13,
        ByteClass::SpaceOrColon => b == 32 || b == 9 || b == 10 || b == 11 || b == 12 || b == 13
            || b == 58,
        ByteClass::Tilde => b == 126,
        ByteClass::Newline => b == 10,
        ByteClass::Colon => b == 58,
    }
}

/// Scans to the end of the run of class `c` bytes starting at `from`.
pub fn scan_run(v: &[u8], from: usize, c: ByteClass) -> (r: usize)
    requires
        from <= v@.len(),
    ensures
        r as int == run_end(v@, from as int, c),
        from <= r <= v@.len(),
{
    let mut i: usize = from;
    while i < v.len() && class_of(v[i], c)
        invariant
            from <= i <= v@.len(),
            run_end(v@, from as int, c) == run_end(v@, i as int, c),
        decreases v@.len() - i,
    {
        i = i + 1;
    }
    i
}

/// Finds the first byte of class `c` at or after `from`.
pub fn scan_find(v: &[u8], from: usize, c: ByteClass) -> (r: Option<usize>)
    requires
        from <= v@.len(),
    ensures
        match r {
            Some(i) => find_from(v@, from as int, c) == Some(i as int) && from <= i < v@.len(),
            None => find_from(v@, from as int, c).is_none(),
        },
{
    let mut i: usize = from;
    loop
        invariant
            from <= i <= v@.len(),
            find_from(v@, from as int, c) == find_from(v@, i as int, c),
        decreases v@.len() - i,
    {
        if i == v.len() {
            return None;
        }
        if class_of(v[i], c) {
            return Some(i);
        }
        i = i + 1;
    }
}

/// Finds the first occurrence of `~` followed by `letter` at or after `from`.
pub fn scan_marker(v: &[u8], from: usize, letter: u8) -> (r: Option<usize>)
    requires
        from <= v@.len(),
    ensures
        match r {
            Some(i) => find_marker(v@, from as int, letter) == Some(i as int) && from <= i && i + 2
                <= v@.len(),
            None => find_marker(v@, from as int, letter).is_none(),
        },
{
    let mut i: usize = from;
    loop
        invariant
            from <= i <= v@.len(),
            find_marker(v@, from as int, letter) == find_marker(v@, i as int, letter),
        decreases v@.len() - i,
    {
        if v.len() - i < 2 {
            return None;
        }
        if v[i] == 126 && v[i + 1] == letter {
            return Some(i);
        }
        i = i + 1;
    }
}

/// Appends `v[lo..hi]` to `dst`.
pub fn push_range(dst: &mut Vec<u8>, v: &[u8], lo: usize, hi: usize)
    requires
        lo <= hi <= v@.len(),
    ensures
        final(dst)@ == old(dst)@ + v@.subrange(lo as int, hi as int),
{
    let mut i: usize = lo;
    while i < hi
        invariant
            lo <= i <= hi <= v@.len(),
            dst@ == old(dst)@ + v@.subrange(lo as int, i as int),
        decreases hi - i,
    {
        proof {
            assert(v@.subrange(lo as int, i + 1 as int) =~= v@.subrange(lo as int, i as int).push(
                v@[i as int],
            ));
        }
        dst.push(v[i]);
        i = i + 1;
    }
}

/// Copies `v[lo..hi]` into a fresh vector.
pub fn subvec(v: &[u8], lo: usize, hi: usize) -> (r: Vec<u8>)
    requires
        lo <= hi <= v@.len(),
    ensures
        r@ == v@.subrange(lo as int, hi as int),
{
    let mut out: Vec<u8> = Vec::new();
    push_range(&mut out, v, lo, hi);
    out
}

/// Copies a whole slice into a fresh vector.
pub fn copy_bytes(v: &[u8]) -> (r: Vec<u8>)
    ensures
        r@ == v@,
{
    let r = subvec(v, 0, v.len());
    proof {
        assert(v@.subrange(0, v@.len() as int) =~= v@);
    }
    r
}

/// Copies `v[lo..hi]` with surrounding whitespace removed.
pub fn trim_range(v: &[u8], lo: usize, hi: usize) -> (r: Vec<u8>)
    requires
        lo <= hi <= v@.len(),
    ensures
        r@ == spec_trim(v@.subrange(lo as int, hi as int)),
{
    let line = subvec(v, lo, hi);
    trim(&line)
}

/// Scans back over the whitespace run ending just before position `d`.
pub fn scan_ws_back(v: &[u8], d: usize) -> (r: usize)
    requires
        d <= v@.len(),
    ensures
        r as int == ws_back(v@, d as int),
        r <= d,
{
    let mut b: usize = d;
    while b > 0 && class_of(v[b - 1], ByteClass::Space)
        invariant
            b <= d <= v@.len(),
            ws_back(v@, d as int) == ws_back(v@, b as int),
        decreases b,
    {
        b = b - 1;
    }
    b
}

/// Copies a slice with surrounding whitespace removed.
pub fn trim(v: &[u8]) -> (r: Vec<u8>)
    ensures
        r@ == spec_trim(v@),
{
    let a = scan_run(v, 0, ByteClass::Space);
    let b = scan_ws_back(v, v.len());
    if a < b {
        subvec(v, a, b)
    } else {
        Vec::new()
    }
}

/// Compares two byte slices for equality.
pub fn bytes_eq(a: &[u8], b: &[u8]) -> (r: bool)
    ensures
        r == (a@ == b@),
{
    if a.len() != b.len() {
        return false;
    }
    let mut i: usize = 0;
    while i < a.len()
        invariant
            i <= a@.len(),
            a@.len() == b@.len(),
            forall|k: int| 0 <= k < i ==> a@[k] == b@[k],
        decreases a@.len() - i,
    {
        if a[i] != b[i] {
            return false;
        }
        i = i + 1;
    }
    proof {
        assert(a@ =~= b@);
    }
    true
}

} // verus!
