//! Property extraction.  Each entry line of a well, curve or parameter
//! section is parsed into a (title, unit, description, value) record by a
//! layered tokenizer: normalize a lone dot, cut the title before the first
//! dot or whitespace, re-scan past the mnemonic-and-dot prefix for the unit,
//! take the text after the first colon (minus leading digit runs) as the
//! description, and pick the value out of the text before the colon by
//! splitting on wide whitespace gaps.

use vstd::prelude::*;

use crate::scan::{
    ByteClass, DOT, TILDE, bytes_eq, class_of, copy_bytes, find_from, is_digit, is_space, is_word,
    push_range, run_end, scan_find, scan_run, scan_ws_back, spec_trim, subvec, trim, trim_range,
    ws_back,
};
use crate::section::{clean_from, clean_range, drop1, section_bounds, section_range, views2};

verus! {

broadcast use crate::scan::group_scan_bounds;

/// The sentinel that replaces a lone dot: `   none   `.
pub open spec fn sentinel_pad() -> Seq<u8> {
    seq![32u8, 32, 32, 110, 111, 110, 101, 32, 32, 32]
}

/// The word `none`.
pub open spec fn none_word() -> Seq<u8> {
    seq![110u8, 111, 110, 101]
}

/// The fallback title `UNKNOWN`.
pub open spec fn unknown_word() -> Seq<u8> {
    seq![85u8, 78, 75, 78, 79, 87, 78]
}

/// First dot at or after `from` that is directly followed by whitespace: a
/// dot standing as a unit separator with no unit attached to it.
pub open spec fn find_lone_dot(s: Seq<u8>, from: int) -> Option<int>
    decreases s.len() - from,
{
    if from >= s.len() {
        None
    } else if s[from] == DOT && from + 1 < s.len() && is_space(s[from + 1]) {
        Some(from)
    } else {
        find_lone_dot(s, from + 1)
    }
}

/// Replaces the first lone dot, together with the whitespace around it, by
/// the `   none   ` sentinel, so that the unit rule can see an empty unit
/// field unambiguously.  A line without a lone dot is left unchanged.
pub open spec fn normalize_dot(s: Seq<u8>) -> Seq<u8> {
    match find_lone_dot(s, 0) {
        None => s,
        Some(d) => {
            let q = ws_back(s, d);
            let e = run_end(s, d + 1, ByteClass::Space);
            s.subrange(0, q) + sentinel_pad() + s.subrange(e, s.len() as int)
        },
    }
}

/// The title: the text before the first dot or whitespace, or `UNKNOWN`
/// when that text is empty.
pub open spec fn title_of(root: Seq<u8>) -> Seq<u8> {
    let cut = match find_from(root, 0, ByteClass::DotOrSpace) {
        None => root.len() as int,
        Some(i) => i,
    };
    let t = root.subrange(0, cut);
    if t.len() == 0 {
        unknown_word()
    } else {
        t
    }
}

/// The unit: the text between the mnemonic-whitespace-dots prefix and the
/// next whitespace, empty when the line does not open with a word character
/// or when the captured token is the `none` sentinel.
pub open spec fn unit_of(root: Seq<u8>) -> Seq<u8> {
    if root.len() == 0 || !is_word(root[0]) {
        Seq::empty()
    } else {
        let w = run_end(root, 0, ByteClass::Word);
        let s1 = run_end(root, w, ByteClass::Space);
        let d = run_end(root, s1, ByteClass::Dot);
        let pe = match find_from(root, d, ByteClass::Space) {
            None => root.len() as int,
            Some(i) => i,
        };
        let piece = root.subrange(d, pe);
        if piece == none_word() {
            Seq::empty()
        } else {
            piece
        }
    }
}

/// The suffix of `s` from `from` on, with leading runs of digits and the
/// whitespace after them removed.
pub open spec fn strip_lead_digits(s: Seq<u8>, from: int) -> Seq<u8>
    decreases s.len() - from,
{
    if 0 <= from && from < s.len() && is_digit(s[from]) {
        let de = run_end(s, from, ByteClass::Digit);
        let we = run_end(s, de, ByteClass::Space);
        if we > from {
            strip_lead_digits(s, we)
        } else {
            s.subrange(from, s.len() as int)
        }
    } else if 0 <= from && from <= s.len() {
        s.subrange(from, s.len() as int)
    } else {
        Seq::empty()
    }
}

/// The description: the text after the first colon, trimmed, with leading
/// digit runs (value artifacts bleeding into the field) stripped; empty
/// when the line has no colon.
pub open spec fn desc_of(root: Seq<u8>) -> Seq<u8> {
    match find_from(root, 0, ByteClass::Colon) {
        None => Seq::empty(),
        Some(i) => strip_lead_digits(spec_trim(root.subrange(i + 1, root.len() as int)), 0),
    }
}

/// First "wide gap" at or after `from`: a run of two or more whitespace
/// bytes, an optional word, and two or more whitespace bytes again; or,
/// failing the trailing run, a single whitespace run of four or more bytes.
/// Such gaps are the only reliable delimiters around a free-form value
/// field.
pub open spec fn find_wide_gap(s: Seq<u8>, from: int) -> Option<(int, int)>
    decreases s.len() - from,
{
    if from >= s.len() {
        None
    } else if is_space(s[from]) {
        let ae = run_end(s, from, ByteClass::Space);
        if ae - from >= 2 {
            let we = run_end(s, ae, ByteClass::Word);
            let be = run_end(s, we, ByteClass::Space);
            if be - we >= 2 {
                Some((from, be))
            } else if ae - from >= 4 {
                Some((from, ae))
            } else if from < ae && ae <= s.len() {
                find_wide_gap(s, ae)
            } else {
                None
            }
        } else if from < ae && ae <= s.len() {
            find_wide_gap(s, ae)
        } else {
            None
        }
    } else {
        find_wide_gap(s, from + 1)
    }
}

/// The pieces of `s[from..]` between successive wide gaps.
pub open spec fn gap_split(s: Seq<u8>, from: int) -> Seq<Seq<u8>>
    decreases s.len() - from,
{
    if !(0 <= from <= s.len()) {
        Seq::empty()
    } else {
        match find_wide_gap(s, from) {
            None => seq![s.subrange(from, s.len() as int)],
            Some((ms, me)) => if from <= ms && ms < me && me <= s.len() {
                seq![s.subrange(from, ms)] + gap_split(s, me)
            } else {
                seq![s.subrange(from, s.len() as int)]
            },
        }
    }
}

/// The value: the text before the first colon, split on wide gaps; the
/// second-to-last piece when more than two pieces arise (the last is then
/// trailing filler), otherwise the last piece; trimmed either way.
pub open spec fn value_of(root: Seq<u8>) -> Seq<u8> {
    let cut = match find_from(root, 0, ByteClass::Colon) {
        None => root.len() as int,
        Some(i) => i,
    };
    let pieces = gap_split(root.subrange(0, cut), 0);
    if pieces.len() > 2 {
        spec_trim(pieces[pieces.len() - 2])
    } else if pieces.len() >= 1 {
        spec_trim(pieces[pieces.len() - 1])
    } else {
        Seq::empty()
    }
}

/// One parsed property record.
pub struct WellPropV {
    pub unit: Seq<u8>,
    pub description: Seq<u8>,
    pub value: Seq<u8>,
}

/// One entry of a well, curve or parameter section: its unit of
/// measurement, its description and its value, each possibly empty.
#[derive(Debug, PartialEq, Eq)]
pub struct WellProp {
    pub unit: Vec<u8>,
    pub description: Vec<u8>,
    pub value: Vec<u8>,
}

impl View for WellProp {
    type V = WellPropV;

    open spec fn view(&self) -> WellPropV {
        WellPropV { unit: self.unit@, description: self.description@, value: self.value@ }
    }
}

impl WellProp {
    /// Builds a record from its three fields.
    pub fn new(unit: &[u8], description: &[u8], value: &[u8]) -> (r: WellProp)
        ensures
            r@ == (WellPropV { unit: unit@, description: description@, value: value@ }),
    {
        WellProp {
            unit: copy_bytes(unit),
            description: copy_bytes(description),
            value: copy_bytes(value),
        }
    }
}

/// The title and record parsed from one entry line.
pub open spec fn parse_line(line: Seq<u8>) -> (Seq<u8>, WellPropV) {
    let root = normalize_dot(line);
    (
        title_of(root),
        WellPropV { unit: unit_of(root), description: desc_of(root), value: value_of(root) },
    )
}

/// Position of the first pair keyed `k` at or after `from`.
pub open spec fn key_index(ps: Seq<(Seq<u8>, WellPropV)>, k: Seq<u8>, from: int) -> Option<int>
    decreases ps.len() - from,
{
    if from >= ps.len() {
        None
    } else if 0 <= from && ps[from].0 == k {
        Some(from)
    } else {
        key_index(ps, k, from + 1)
    }
}

pub broadcast proof fn lemma_key_index_props(ps: Seq<(Seq<u8>, WellPropV)>, k: Seq<u8>, from: int)
    ensures
        0 <= from && (#[trigger] key_index(ps, k, from)).is_some() ==> {
            let i = key_index(ps, k, from).unwrap();
            from <= i < ps.len() && ps[i].0 == k
        },
    decreases ps.len() - from,
{
    if 0 <= from && from < ps.len() && ps[from].0 != k {
        lemma_key_index_props(ps, k, from + 1);
    }
}

/// Inserting a pair: a duplicate title overwrites the existing record in
/// place, a fresh title is appended.
pub open spec fn upsert(
    ps: Seq<(Seq<u8>, WellPropV)>,
    k: Seq<u8>,
    v: WellPropV,
) -> Seq<(Seq<u8>, WellPropV)> {
    match key_index(ps, k, 0) {
        None => ps.push((k, v)),
        Some(i) => ps.update(i, (k, v)),
    }
}

/// The pairs obtained by parsing the first `n` entry lines in order.
pub open spec fn props_fold(lines: Seq<Seq<u8>>, n: int) -> Seq<(Seq<u8>, WellPropV)>
    decreases n,
{
    if n <= 0 || n > lines.len() {
        Seq::empty()
    } else {
        let prev = props_fold(lines, n - 1);
        let kv = parse_line(lines[n - 1]);
        upsert(prev, kv.0, kv.1)
    }
}

/// The property pairs of the section opened by `~letter`: its filtered
/// lines after the section-header line, parsed and folded in order.  A
/// document without the marker has no mapping at all.
pub open spec fn spec_props(blob: Seq<u8>, letter: u8) -> Option<Seq<(Seq<u8>, WellPropV)>> {
    match section_bounds(blob, letter) {
        None => None,
        Some((st, en)) => {
            let ls = drop1(clean_from(blob, st, en));
            Some(props_fold(ls, ls.len() as int))
        },
    }
}

/// The record stored under key `k`, if any.
pub open spec fn spec_get(ps: Seq<(Seq<u8>, WellPropV)>, k: Seq<u8>) -> Option<WellPropV> {
    match key_index(ps, k, 0) {
        None => None,
        Some(i) => Some(ps[i].1),
    }
}

/// A mapping from titles to property records with the insertion order of
/// the titles preserved; a duplicate title silently overwrites its record.
pub struct PropMap {
    keys: Vec<Vec<u8>>,
    vals: Vec<WellProp>,
}

impl View for PropMap {
    type V = Seq<(Seq<u8>, WellPropV)>;

    closed spec fn view(&self) -> Seq<(Seq<u8>, WellPropV)> {
        Seq::new(self.keys@.len(), |i: int| (self.keys@[i]@, self.vals@[i]@))
    }
}

impl PropMap {
    /// The two columns of the mapping stay aligned.
    pub closed spec fn wf(&self) -> bool {
        self.keys@.len() == self.vals@.len()
    }

    /// The entry at position `i`, in insertion order of the titles.
    pub fn entry_at(&self, i: usize) -> (r: (&Vec<u8>, &WellProp))
        requires
            self.wf(),
            i < self@.len(),
        ensures
            r.0@ == self@[i as int].0,
            r.1@ == self@[i as int].1,
    {
        (&self.keys[i], &self.vals[i])
    }

    /// An empty mapping.
    pub fn new() -> (r: PropMap)
        ensures
            r@ == Seq::<(Seq<u8>, WellPropV)>::empty(),
            r.wf(),
    {
        let r = PropMap { keys: Vec::new(), vals: Vec::new() };
        proof {
            assert(r@ =~= Seq::<(Seq<u8>, WellPropV)>::empty());
        }
        r
    }

    /// The number of entries.
    pub fn len(&self) -> (n: usize)
        ensures
            n == self@.len(),
    {
        self.keys.len()
    }

    /// Position of `key` in the mapping, if present.
    fn position(&self, key: &[u8]) -> (r: Option<usize>)
        requires
            self.wf(),
        ensures
            match r {
                Some(i) => key_index(self@, key@, 0) == Some(i as int) && i < self@.len(),
                None => key_index(self@, key@, 0).is_none(),
            },
    {
        let mut i: usize = 0;
        loop
            invariant
                i <= self@.len(),
                self.wf(),
                key_index(self@, key@, 0) == key_index(self@, key@, i as int),
            decreases self@.len() - i,
        {
            if i == self.keys.len() {
                return None;
            }
            if bytes_eq(self.keys[i].as_slice(), key) {
                return Some(i);
            }
            i = i + 1;
        }
    }

    /// The record stored under `key`, if any.
    pub fn get(&self, key: &[u8]) -> (r: Option<&WellProp>)
        requires
            self.wf(),
        ensures
            match spec_get(self@, key@) {
                None => r.is_none(),
                Some(pv) => r.is_some() && r.unwrap()@ == pv,
            },
    {
        match self.position(key) {
            None => None,
            Some(i) => Some(&self.vals[i]),
        }
    }

    /// Stores `prop` under `key`, overwriting any existing record.
    pub fn insert(&mut self, key: Vec<u8>, prop: WellProp)
        requires
            old(self).wf(),
        ensures
            final(self).wf(),
            final(self)@ == upsert(old(self)@, key@, prop@),
    {
        match self.position(key.as_slice()) {
            Some(i) => {
                self.vals[i] = prop;
                proof {
                    lemma_key_index_props(old(self)@, key@, 0);
                    assert(self@ =~= upsert(old(self)@, key@, prop@));
                }
            },
            None => {
                self.keys.push(key);
                self.vals.push(prop);
                proof {
                    assert(self@ =~= upsert(old(self)@, key@, prop@));
                }
            },
        }
    }
}

/// Replaces the first lone dot by the `   none   ` sentinel.
fn normalize_dot_exec(line: &[u8]) -> (r: Vec<u8>)
    ensures
        r@ == normalize_dot(line@),
{
    let mut i: usize = 0;
    let d: usize;
    loop
        invariant
            i <= line@.len(),
            find_lone_dot(line@, 0) == find_lone_dot(line@, i as int),
        decreases line@.len() - i,
    {
        if i >= line.len() {
            return copy_bytes(line);
        }
        if line[i] == 46 && i + 1 < line.len() && class_of(line[i + 1], ByteClass::Space) {
            d = i;
            break;
        }
        i = i + 1;
    }
    let q = scan_ws_back(line, d);
    let e = scan_run(line, d + 1, ByteClass::Space);
    let mut out = subvec(line, 0, q);
    out.push(32);
    out.push(32);
    out.push(32);
    out.push(110);
    out.push(111);
    out.push(110);
    out.push(101);
    out.push(32);
    out.push(32);
    out.push(32);
    push_range(&mut out, line, e, line.len());
    proof {
        assert(out@ =~= line@.subrange(0, q as int) + sentinel_pad() + line@.subrange(
            e as int,
            line@.len() as int,
        ));
    }
    out
}

/// Cuts the title out of a normalized line.
fn title_exec(root: &[u8]) -> (r: Vec<u8>)
    ensures
        r@ == title_of(root@),
{
    let cut = match scan_find(root, 0, ByteClass::DotOrSpace) {
        None => root.len(),
        Some(i) => i,
    };
    if cut == 0 {
        let unknown: Vec<u8> = vec![85u8, 78, 75, 78, 79, 87, 78];
        proof {
            assert(unknown@ =~= unknown_word());
            assert(root@.subrange(0, 0).len() == 0);
        }
        unknown
    } else {
        let r = subvec(root, 0, cut);
        r
    }
}

/// Cuts the unit out of a normalized line.
fn unit_exec(root: &[u8]) -> (r: Vec<u8>)
    ensures
        r@ == unit_of(root@),
{
    if root.len() == 0 || !class_of(root[0], ByteClass::Word) {
        return Vec::new();
    }
    let w = scan_run(root, 0, ByteClass::Word);
    let s1 = scan_run(root, w, ByteClass::Space);
    let d = scan_run(root, s1, ByteClass::Dot);
    let pe = match scan_find(root, d, ByteClass::Space) {
        None => root.len(),
        Some(i) => i,
    };
    let piece = subvec(root, d, pe);
    let none: Vec<u8> = vec![110u8, 111, 110, 101];
    proof {
        assert(none@ =~= none_word());
    }
    if bytes_eq(piece.as_slice(), none.as_slice()) {
        Vec::new()
    } else {
        piece
    }
}

/// Cuts the description out of a normalized line.
fn desc_exec(root: &[u8]) -> (r: Vec<u8>)
    ensures
        r@ == desc_of(root@),
{
    let n = root.len();
    match scan_find(root, 0, ByteClass::Colon) {
        None => Vec::new(),
        Some(i) => {
            proof {
                assert(i + 1 <= n);
            }
            let t = trim_range(root, i + 1, n);
            let mut pos: usize = 0;
            loop
                invariant
                    pos <= t@.len(),
                    strip_lead_digits(t@, 0) == strip_lead_digits(t@, pos as int),
                decreases t@.len() - pos,
            {
                if pos < t.len() && class_of(t[pos], ByteClass::Digit) {
                    let de = scan_run(&t, pos, ByteClass::Digit);
                    let we = scan_run(&t, de, ByteClass::Space);
                    if we > pos {
                        pos = we;
                    } else {
                        break;
                    }
                } else {
                    break;
                }
            }
            subvec(&t, pos, t.len())
        },
    }
}

/// Finds the first wide gap at or after `from`.
fn scan_wide_gap(v: &[u8], from: usize) -> (r: Option<(usize, usize)>)
    requires
        from <= v@.len(),
    ensures
        match r {
            Some((ms, me)) => find_wide_gap(v@, from as int) == Some((ms as int, me as int))
                && from <= ms && ms < me && me <= v@.len(),
            None => find_wide_gap(v@, from as int).is_none(),
        },
{
    let mut i: usize = from;
    loop
        invariant
            from <= i <= v@.len(),
            find_wide_gap(v@, from as int) == find_wide_gap(v@, i as int),
        decreases v@.len() - i,
    {
        if i == v.len() {
            return None;
        }
        if class_of(v[i], ByteClass::Space) {
            let ae = scan_run(v, i, ByteClass::Space);
            proof {
                assert(run_end(v@, i as int, ByteClass::Space) == run_end(
                    v@,
                    i as int + 1,
                    ByteClass::Space,
                ));
            }
            if ae - i >= 2 {
                let we = scan_run(v, ae, ByteClass::Word);
                let be = scan_run(v, we, ByteClass::Space);
                if be - we >= 2 {
                    return Some((i, be));
                } else if ae - i >= 4 {
                    return Some((i, ae));
                } else {
                    i = ae;
                }
            } else {
                i = ae;
            }
        } else {
            i = i + 1;
        }
    }
}

/// Cuts the value out of a normalized line.
fn value_exec(root: &[u8]) -> (r: Vec<u8>)
    ensures
        r@ == value_of(root@),
{
    let cut = match scan_find(root, 0, ByteClass::Colon) {
        None => root.len(),
        Some(i) => i,
    };
    let b = subvec(root, 0, cut);
    let mut pieces: Vec<Vec<u8>> = Vec::new();
    let mut pos: usize = 0;
    proof {
        assert(views2(pieces@) =~= Seq::<Seq<u8>>::empty());
    }
    loop
        invariant
            pos <= b@.len(),
            views2(pieces@) + gap_split(b@, pos as int) == gap_split(b@, 0),
        decreases b@.len() - pos,
    {
        let ghost prev = pieces@;
        match scan_wide_gap(&b, pos) {
            None => {
                let piece = subvec(&b, pos, b.len());
                let ghost pv = piece@;
                pieces.push(piece);
                proof {
                    assert(views2(pieces@) =~= views2(prev).push(pv));
                    assert(gap_split(b@, pos as int) == seq![pv]);
                    assert(views2(prev).push(pv) =~= views2(prev) + seq![pv]);
                }
                break;
            },
            Some((ms, me)) => {
                let piece = subvec(&b, pos, ms);
                let ghost pv = piece@;
                pieces.push(piece);
                proof {
                    let rest = gap_split(b@, me as int);
                    assert(views2(pieces@) =~= views2(prev).push(pv));
                    assert(gap_split(b@, pos as int) == seq![pv] + rest);
                    assert(views2(prev).push(pv) + rest =~= views2(prev) + (seq![pv] + rest));
                }
                pos = me;
            },
        }
    }
    proof {
        assert(gap_split(b@, 0).len() >= 1);
    }
    let n = pieces.len();
    if n > 2 {
        trim(pieces[n - 2].as_slice())
    } else {
        trim(pieces[n - 1].as_slice())
    }
}

/// Parses one entry line into its title and record.
fn parse_prop_line(line: &[u8]) -> (r: (Vec<u8>, WellProp))
    ensures
        r.0@ == parse_line(line@).0,
        r.1@ == parse_line(line@).1,
{
    let root = normalize_dot_exec(line);
    let title = title_exec(root.as_slice());
    let unit = unit_exec(root.as_slice());
    let description = desc_exec(root.as_slice());
    let value = value_exec(root.as_slice());
    (title, WellProp { unit, description, value })
}

/// Extracts all property records of the section opened by `key`, a `~`
/// marker such as the well, curve or parameter marker.  Returns nothing
/// when the marker does not occur in the document.
pub fn property(raw: &[u8], key: &[u8]) -> (r: Option<PropMap>)
    requires
        key@.len() == 2,
        key@[0] == TILDE,
    ensures
        r.is_some() == spec_props(raw@, key@[1]).is_some(),
        r.is_some() ==> r.unwrap()@ == spec_props(raw@, key@[1]).unwrap() && r.unwrap().wf(),
{
    let letter = key[1];
    match section_range(raw, letter) {
        None => None,
        Some((st, en)) => {
            let lines = clean_range(raw, st, en);
            let ghost ls = drop1(clean_from(raw@, st as int, en as int));
            let mut pm = PropMap::new();
            if lines.len() == 0 {
                proof {
                    assert(ls.len() == 0);
                    assert(pm@ == props_fold(ls, 0));
                }
                return Some(pm);
            }
            let mut k: usize = 1;
            proof {
                assert(ls.len() == views2(lines@).len() - 1);
            }
            while k < lines.len()
                invariant
                    1 <= k <= lines@.len(),
                    lines@.len() >= 1,
                    ls == drop1(clean_from(raw@, st as int, en as int)),
                    ls.len() == lines@.len() - 1,
                    views2(lines@) == clean_from(raw@, st as int, en as int),
                    pm.wf(),
                    pm@ == props_fold(ls, k - 1),
                decreases lines@.len() - k,
            {
                let kv = parse_prop_line(lines[k].as_slice());
                proof {
                    assert(ls[k - 1] == views2(lines@)[k as int]);
                    assert(ls[k - 1] == lines@[k as int]@);
                }
                pm.insert(kv.0, kv.1);
                proof {
                    assert(props_fold(ls, k as int) == upsert(
                        props_fold(ls, k - 1),
                        parse_line(ls[k - 1]).0,
                        parse_line(ls[k - 1]).1,
                    ));
                }
                k = k + 1;
            }
            Some(pm)
        },
    }
}

} // verus!
