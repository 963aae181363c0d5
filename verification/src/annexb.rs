//! Turning length-prefixed (AVCC) H.264 output into an Annex-B elementary
//! stream, and walking an Annex-B stream to report its NAL units.
//!
//! AVCC prefixes every NAL unit with its length as a big-endian integer of
//! 1, 2 or 4 bytes. Annex-B separates units with a start code instead. The
//! conversion consumes the lengths and writes a four-byte start code before
//! each unit; parameter sets are framed the same way so they can be prepended
//! to a keyframe.

use vstd::prelude::*;

verus! {

/// The four-byte start code. The three-byte form `00 00 01` is also legal,
/// and `scan` accepts both, but four is what this module emits.
pub const START_CODE: [u8; 4] = [0, 0, 0, 1];

/// The start code as a sequence of bytes.
pub open spec fn start_code() -> Seq<u8> {
    seq![0u8, 0u8, 0u8, 1u8]
}

/// Annex-B framing of a list of NAL units: each one preceded by a start code.
pub open spec fn annexb_of(units: Seq<Seq<u8>>) -> Seq<u8>
    decreases units.len(),
{
    if units.len() == 0 {
        Seq::empty()
    } else {
        start_code() + units[0] + annexb_of(units.drop_first())
    }
}

/// Unsigned big-endian value of a byte string.
pub open spec fn be_value(b: Seq<u8>) -> nat
    decreases b.len(),
{
    if b.len() == 0 {
        0
    } else {
        be_value(b.drop_last()) * 256 + b.last() as nat
    }
}

/// `256` to the power `k`.
pub open spec fn pow256(k: nat) -> nat
    decreases k,
{
    if k == 0 {
        1
    } else {
        256 * pow256((k - 1) as nat)
    }
}

/// The NAL units of a length-prefixed buffer whose length fields are `n`
/// bytes wide, or `None` when the buffer does not divide exactly into
/// non-empty units (a zero length, a unit running past the end, or trailing
/// bytes too short to hold a length field).
pub open spec fn avcc_units(s: Seq<u8>, n: nat) -> Option<Seq<Seq<u8>>>
    decreases s.len(),
{
    if s.len() == 0 {
        Some(Seq::empty())
    } else if n == 0 || s.len() < n {
        None
    } else {
        let len = be_value(s.take(n as int));
        if len == 0 || n + len > s.len() {
            None
        } else {
            match avcc_units(s.skip((n + len) as int), n) {
                Some(rest) => Some(seq![s.subrange(n as int, (n + len) as int)] + rest),
                None => None,
            }
        }
    }
}

/// What `avcc_to_annexb` returns: `None` for a length-field width other than
/// 1 to 4 or a malformed buffer, otherwise the Annex-B framing of its units.
pub open spec fn avcc_to_annexb_spec(s: Seq<u8>, n: nat) -> Option<Seq<u8>> {
    if 1 <= n <= 4 {
        match avcc_units(s, n) {
            Some(units) => Some(annexb_of(units)),
            None => None,
        }
    } else {
        None
    }
}

proof fn lemma_be_value_step(s: Seq<u8>, i: int, k: int)
    requires
        0 <= i,
        0 <= k,
        i + k < s.len(),
    ensures
        be_value(s.subrange(i, i + k + 1)) == be_value(s.subrange(i, i + k)) * 256 + s[i + k],
{
    let b = s.subrange(i, i + k + 1);
    assert(b.drop_last() =~= s.subrange(i, i + k));
}

proof fn lemma_annexb_cons(u: Seq<u8>, rest: Seq<Seq<u8>>)
    ensures
        annexb_of(seq![u] + rest) == start_code() + u + annexb_of(rest),
{
    let us = seq![u] + rest;
    assert(us.drop_first() =~= rest);
    assert(us[0] == u);
}

/// Rewrites a length-prefixed AVCC buffer as Annex-B.
///
/// `nal_length_size` is almost always 4, but the format permits 1, 2 or 4 and
/// the encoder reports it, so it is read rather than assumed. Returns `None`
/// if the buffer is malformed, which in practice means a truncated read.
pub fn avcc_to_annexb(avcc: &[u8], nal_length_size: usize) -> (res: Option<Vec<u8>>)
    ensures
        match res {
            Some(v) => avcc_to_annexb_spec(avcc@, nal_length_size as nat) == Some(v@),
            None => avcc_to_annexb_spec(avcc@, nal_length_size as nat) is None,
        },
{
    if !(1 <= nal_length_size && nal_length_size <= 4) {
        return None;
    }
    let n = nal_length_size;
    let ghost s = avcc@;
    let ghost nn = n as nat;

    let mut out: Vec<u8> = Vec::new();
    let mut i: usize = 0;

    assert(s.skip(0) =~= s);
    while n <= avcc.len() - i
        invariant
            1 <= n <= 4,
            n == nal_length_size,
            nn == n,
            s == avcc@,
            i <= avcc.len(),
            match avcc_units(s, nn) {
                Some(us) => {
                    &&& avcc_units(s.skip(i as int), nn) is Some
                    &&& annexb_of(us) == out@ + annexb_of(avcc_units(s.skip(i as int), nn).unwrap())
                },
                None => avcc_units(s.skip(i as int), nn) is None,
            },
        decreases avcc.len() - i,
    {
        let mut len: usize = 0;
        let mut k: usize = 0;
        while k < n
            invariant
                1 <= n <= 4,
                k <= n,
                i + n <= avcc.len(),
                s == avcc@,
                len == be_value(s.subrange(i as int, i + k)),
                len < pow256(k as nat),
            decreases n - k,
        {
            proof {
                lemma_be_value_step(s, i as int, k as int);
                assert(pow256((k + 1) as nat) == 256 * pow256(k as nat));
                assert(pow256(0) == 1);
                assert(pow256(1) == 256);
                assert(pow256(2) == 65536);
                assert(pow256(3) == 16777216);
            }
            len = len * 256 + avcc[i + k] as usize;
            k += 1;
        }
        let ghost rest = s.skip(i as int);
        proof {
            assert(rest.take(n as int) =~= s.subrange(i as int, i + n));
        }
        i += n;

        if len == 0 || len > avcc.len() - i {
            proof {
                assert(be_value(rest.take(n as int)) == len);
                assert(rest.len() >= n);
                assert(avcc_units(rest, nn) is None);
            }
            return None;
        }
        proof {
            assert(rest.skip(n + len) =~= s.skip(i + len));
            assert(rest.subrange(n as int, n + len) =~= s.subrange(i as int, i + len));
            let ghost tail = avcc_units(rest.skip(n + len), nn);
            if let Some(t) = tail {
                lemma_annexb_cons(s.subrange(i as int, i + len), t);
            }
        }
        let ghost before = out@;
        out.extend_from_slice(&START_CODE);
        out.extend_from_slice(&avcc[i..i + len]);
        proof {
            assert(START_CODE@ =~= start_code());
            assert(out@ =~= before + start_code() + s.subrange(i as int, i + len));
        }
        i += len;
    }

    if i != avcc.len() {
        return None;
    }
    proof {
        assert(s.skip(i as int) =~= Seq::<u8>::empty());
        assert(annexb_of(Seq::<Seq<u8>>::empty()) =~= Seq::<u8>::empty());
        assert(out@ + Seq::<u8>::empty() =~= out@);
    }
    Some(out)
}


/// Wraps each parameter set in a start code, ready to prepend to a keyframe.
pub fn parameter_sets_to_annexb(sets: &[Vec<u8>]) -> (out: Vec<u8>)
    ensures
        out@ == annexb_of(units_of(sets@)),
{
    let ghost units = units_of(sets@);
    let mut out: Vec<u8> = Vec::new();
    let mut i: usize = 0;
    assert(units.skip(0) =~= units);
    while i < sets.len()
        invariant
            i <= sets.len(),
            units == units_of(sets@),
            annexb_of(units) == out@ + annexb_of(units.skip(i as int)),
        decreases sets.len() - i,
    {
        proof {
            assert(units.skip(i as int) =~= seq![units[i as int]] + units.skip(i + 1));
            lemma_annexb_cons(units[i as int], units.skip(i + 1));
        }
        let ghost before = out@;
        out.extend_from_slice(&START_CODE);
        out.extend_from_slice(sets[i].as_slice());
        proof {
            assert(START_CODE@ =~= start_code());
            assert(out@ =~= before + start_code() + units[i as int]);
        }
        i += 1;
    }
    proof {
        assert(units.skip(i as int) =~= Seq::<Seq<u8>>::empty());
        assert(out@ + Seq::<u8>::empty() =~= out@);
    }
    out
}

/// The byte contents of a list of buffers.
pub open spec fn units_of(sets: Seq<Vec<u8>>) -> Seq<Seq<u8>> {
    sets.map_values(|v: Vec<u8>| v@)
}

/// The NAL unit type: the low five bits of the header byte.
pub open spec fn nal_type_of(first_byte: u8) -> u8 {
    first_byte % 32
}

/// The NAL unit type in the low five bits of the header byte.
///
/// A valid keyframe carries 7 (SPS), 8 (PPS) and 5 (IDR).
pub fn nal_type(first_byte: u8) -> (t: u8)
    ensures
        t == nal_type_of(first_byte),
        t < 32,
{
    let t = first_byte & 0x1F;
    assert(first_byte & 0x1F == first_byte % 32) by (bit_vector);
    t
}

/// Human-readable name of a NAL unit type.
pub open spec fn nal_type_label(t: u8) -> Seq<char> {
    if t == 1 {
        "non-IDR slice"@
    } else if t == 5 {
        "IDR slice"@
    } else if t == 6 {
        "SEI"@
    } else if t == 7 {
        "SPS"@
    } else if t == 8 {
        "PPS"@
    } else if t == 9 {
        "access unit delimiter"@
    } else {
        "other"@
    }
}

/// Human-readable NAL unit type, for diagnostics.
pub fn nal_type_name(t: u8) -> (name: &'static str)
    ensures
        name@ == nal_type_label(t),
{
    match t {
        1 => "non-IDR slice",
        5 => "IDR slice",
        6 => "SEI",
        7 => "SPS",
        8 => "PPS",
        9 => "access unit delimiter",
        _ => "other",
    }
}

/// Whether a three-byte start code `00 00 01` begins at `i` (and a fourth
/// byte follows it, since the scan only looks where four bytes remain).
pub open spec fn short_code_at(s: Seq<u8>, i: int) -> bool {
    &&& 0 <= i
    &&& i + 3 < s.len()
    &&& s[i] == 0
    &&& s[i + 1] == 0
    &&& s[i + 2] == 1
}

/// Whether a four-byte start code `00 00 00 01` begins at `i`.
pub open spec fn long_code_at(s: Seq<u8>, i: int) -> bool {
    &&& 0 <= i
    &&& i + 3 < s.len()
    &&& s[i] == 0
    &&& s[i + 1] == 0
    &&& s[i + 2] == 0
    &&& s[i + 3] == 1
}

/// The start codes found by walking `s` from `i`: each entry is the index
/// where a payload begins and the length of the code before it. A match
/// moves the walk past the code; anything else moves it by one byte.
pub open spec fn start_codes_from(s: Seq<u8>, i: int) -> Seq<(int, int)>
    decreases s.len() - i,
{
    if i < 0 || i + 3 >= s.len() {
        Seq::empty()
    } else if short_code_at(s, i) {
        seq![(i + 3, 3int)] + start_codes_from(s, i + 3)
    } else if long_code_at(s, i) {
        seq![(i + 4, 4int)] + start_codes_from(s, i + 4)
    } else {
        start_codes_from(s, i + 1)
    }
}

/// Where the payload that begins at `starts[0]` ends: just before the next
/// start code, or at the end of the buffer.
pub open spec fn payload_end(s: Seq<u8>, starts: Seq<(int, int)>) -> int {
    if starts.len() > 1 {
        starts[1].0 - starts[1].1
    } else {
        s.len() as int
    }
}

/// The `(type, length)` reports for a list of start codes; a start code with
/// nothing after it before the next one reports nothing.
pub open spec fn nal_reports(s: Seq<u8>, starts: Seq<(int, int)>) -> Seq<(u8, usize)>
    decreases starts.len(),
{
    if starts.len() == 0 {
        Seq::empty()
    } else {
        let begin = starts[0].0;
        let end = payload_end(s, starts);
        let head = if begin < end {
            seq![(nal_type_of(s[begin]), (end - begin) as usize)]
        } else {
            Seq::empty()
        };
        head + nal_reports(s, starts.drop_first())
    }
}

/// What `scan` reports for an Annex-B buffer.
pub open spec fn scan_spec(s: Seq<u8>) -> Seq<(u8, usize)> {
    nal_reports(s, start_codes_from(s, 0))
}

/// Walks an Annex-B buffer and reports each NAL unit's type and length.
///
/// This proves the bytes really are a parseable elementary stream,
/// independently of any decoder agreeing.
pub fn scan(annexb: &[u8]) -> (out: Vec<(u8, usize)>)
    ensures
        out@ == scan_spec(annexb@),
{
    let ghost s = annexb@;
    let mut starts: Vec<(usize, usize)> = Vec::new();
    let mut i: usize = 0;
    while i < annexb.len() && annexb.len() - i > 3
        invariant
            s == annexb@,
            i <= annexb.len(),
            positions(starts@) + start_codes_from(s, i as int) == start_codes_from(s, 0),
            forall|k: int| 0 <= k < starts@.len() ==> #[trigger] starts@[k].0 <= s.len()
                && 3 <= starts@[k].1 <= starts@[k].0,
        decreases annexb.len() - i,
    {
        let ghost before = starts@;
        if annexb[i] == 0 && annexb[i + 1] == 0 {
            if annexb[i + 2] == 1 {
                starts.push((i + 3, 3));
                proof {
                    assert(positions(starts@) =~= positions(before) + seq![((i + 3) as int, 3int)]);
                }
                i += 3;
                continue;
            } else if annexb[i + 2] == 0 && annexb[i + 3] == 1 {
                starts.push((i + 4, 4));
                proof {
                    assert(positions(starts@) =~= positions(before) + seq![((i + 4) as int, 4int)]);
                }
                i += 4;
                continue;
            }
        }
        i += 1;
    }
    proof {
        assert(start_codes_from(s, i as int) =~= Seq::<(int, int)>::empty());
        assert(positions(starts@) + Seq::<(int, int)>::empty() =~= positions(starts@));
    }

    let ghost all = positions(starts@);
    let mut out: Vec<(u8, usize)> = Vec::new();
    let mut n: usize = 0;
    assert(all.skip(0) =~= all);
    while n < starts.len()
        invariant
            s == annexb@,
            all == positions(starts@),
            all == start_codes_from(s, 0),
            n <= starts.len(),
            nal_reports(s, all) == out@ + nal_reports(s, all.skip(n as int)),
            forall|k: int| 0 <= k < starts@.len() ==> #[trigger] starts@[k].0 <= s.len()
                && 3 <= starts@[k].1 <= starts@[k].0,
        decreases starts.len() - n,
    {
        let (payload_start, _) = starts[n];
        let end = if n + 1 < starts.len() {
            let (s1, c1) = starts[n + 1];
            s1 - c1
        } else {
            annexb.len()
        };
        let ghost rest = all.skip(n as int);
        proof {
            assert(rest.drop_first() =~= all.skip(n + 1));
            assert(rest[0] == all[n as int]);
            if n + 1 < starts.len() {
                assert(rest[1] == all[n + 1]);
            }
        }
        if payload_start < end {
            out.push((nal_type(annexb[payload_start]), end - payload_start));
        }
        proof {
            assert(out@ + nal_reports(s, all.skip(n + 1)) =~= nal_reports(s, all) );
        }
        n += 1;
    }
    proof {
        assert(all.skip(n as int) =~= Seq::<(int, int)>::empty());
        assert(out@ + Seq::<(u8, usize)>::empty() =~= out@);
    }
    out
}

/// The start-code list of `scan` in mathematical integers.
pub open spec fn positions(v: Seq<(usize, usize)>) -> Seq<(int, int)> {
    v.map_values(|p: (usize, usize)| (p.0 as int, p.1 as int))
}


/// A NAL payload in which no start code can be mistaken: it holds no
/// `00 00 01`. H.264's emulation prevention guarantees this (it also
/// excludes `00 00 00` and `00 00 02`, which the scan does not need).
pub open spec fn emulation_free(u: Seq<u8>) -> bool {
    forall|j: int| 0 <= j && j + 2 < u.len() ==> !(#[trigger] u[j] == 0 && u[j + 1] == 0 && u[j + 2] == 1)
}

/// Every unit is non-empty and free of start-code emulation.
pub open spec fn well_formed_units(units: Seq<Seq<u8>>) -> bool {
    forall|i: int| 0 <= i < units.len() ==> #[trigger] units[i].len() > 0 && emulation_free(units[i])
}

/// The `(type, length)` report of each unit.
pub open spec fn unit_reports(units: Seq<Seq<u8>>) -> Seq<(u8, usize)> {
    units.map_values(|u: Seq<u8>| (nal_type_of(u[0]), u.len() as usize))
}

/// Where the payloads of `annexb_of(units)` begin, placed after `base` bytes.
pub open spec fn unit_starts(units: Seq<Seq<u8>>, base: int) -> Seq<(int, int)>
    decreases units.len(),
{
    if units.len() == 0 {
        Seq::empty()
    } else {
        seq![(base + 4, 4int)] + unit_starts(units.drop_first(), base + 4 + units[0].len())
    }
}

proof fn lemma_annexb_starts_with_code(units: Seq<Seq<u8>>)
    ensures
        annexb_of(units).len() == 0 || (annexb_of(units).len() >= 4 && annexb_of(units).take(4)
            == start_code()),
{
    if units.len() > 0 {
        let a = annexb_of(units);
        assert(a == start_code() + units[0] + annexb_of(units.drop_first()));
        assert(a.take(4) =~= start_code());
    }
}

/// No start code begins inside a well-formed payload, even where the
/// window runs on into the following start code.
proof fn lemma_no_code_in_payload(p: Seq<u8>, u: Seq<u8>, r: Seq<u8>, k: int)
    requires
        u.len() > 0,
        emulation_free(u),
        r.len() == 0 || (r.len() >= 4 && r.take(4) == start_code()),
        p.len() + 4 <= k < p.len() + 4 + u.len(),
    ensures
        !short_code_at(p + start_code() + u + r, k),
        !long_code_at(p + start_code() + u + r, k),
{
    let s = p + start_code() + u + r;
    let b = p.len() + 4;
    let e = b + u.len();
    assert forall|t: int| b <= t < e implies s[t] == u[t - b] by {}
    assert forall|t: int| e <= t < e + r.len() implies s[t] == r[t - e] by {}
    if r.len() > 0 {
        assert(r[0] == r.take(4)[0]);
        assert(r[1] == r.take(4)[1]);
        assert(r[2] == r.take(4)[2]);
    }
    if r.len() > 0 {
        assert(r[3] == r.take(4)[3]);
    }
    if k + 2 < e {
        assert(!(u[k - b] == 0 && u[k - b + 1] == 0 && u[k - b + 2] == 1));
    }
    if k + 3 < e {
        assert(!(u[k - b + 1] == 0 && u[k - b + 2] == 0 && u[k - b + 3] == 1));
    }
}

proof fn lemma_skip_quiet(s: Seq<u8>, i: int, j: int)
    requires
        0 <= i <= j,
        forall|k: int| i <= k < j ==> !short_code_at(s, k) && !long_code_at(s, k),
    ensures
        start_codes_from(s, i) == start_codes_from(s, j),
    decreases j - i,
{
    if i < j {
        lemma_skip_quiet(s, i + 1, j);
        if i + 3 >= s.len() {
            assert(start_codes_from(s, j) == Seq::<(int, int)>::empty());
        }
    }
}

proof fn lemma_starts_of_annexb(p: Seq<u8>, units: Seq<Seq<u8>>)
    requires
        well_formed_units(units),
    ensures
        start_codes_from(p + annexb_of(units), p.len() as int) == unit_starts(units, p.len() as int),
    decreases units.len(),
{
    let s = p + annexb_of(units);
    if units.len() == 0 {
        assert(s =~= p);
    } else {
        let u = units[0];
        let rest = units.drop_first();
        assert(units[0].len() > 0 && emulation_free(units[0]));
        assert(well_formed_units(rest)) by {
            assert forall|i: int| 0 <= i < rest.len() implies #[trigger] rest[i].len() > 0
                && emulation_free(rest[i]) by {
                assert(rest[i] == units[i + 1]);
            }
        }
        let r = annexb_of(rest);
        let p2 = p + start_code() + u;
        assert(s =~= p + start_code() + u + r);
        assert(s =~= p2 + r);
        let b = p.len() as int;
        assert(s[b] == 0 && s[b + 1] == 0 && s[b + 2] == 0 && s[b + 3] == 1);
        assert(long_code_at(s, b));
        assert(!short_code_at(s, b));
        assert(start_codes_from(s, b) == seq![(b + 4, 4int)] + start_codes_from(s, b + 4));
        lemma_annexb_starts_with_code(rest);
        assert forall|k: int| b + 4 <= k < p2.len() implies !short_code_at(s, k) && !long_code_at(
            s,
            k,
        ) by {
            lemma_no_code_in_payload(p, u, r, k);
        }
        lemma_skip_quiet(s, b + 4, p2.len() as int);
        lemma_starts_of_annexb(p2, rest);
    }
}

proof fn lemma_reports_of_annexb(p: Seq<u8>, units: Seq<Seq<u8>>)
    requires
        well_formed_units(units),
    ensures
        nal_reports(p + annexb_of(units), unit_starts(units, p.len() as int)) == unit_reports(units),
    decreases units.len(),
{
    let s = p + annexb_of(units);
    let st = unit_starts(units, p.len() as int);
    if units.len() == 0 {
        assert(unit_reports(units) =~= Seq::<(u8, usize)>::empty());
    } else {
        let u = units[0];
        let rest = units.drop_first();
        assert(units[0].len() > 0 && emulation_free(units[0]));
        assert(well_formed_units(rest)) by {
            assert forall|i: int| 0 <= i < rest.len() implies #[trigger] rest[i].len() > 0
                && emulation_free(rest[i]) by {
                assert(rest[i] == units[i + 1]);
            }
        }
        let r = annexb_of(rest);
        let p2 = p + start_code() + u;
        assert(s =~= p2 + r);
        let b = p.len() as int;
        assert(st.drop_first() == unit_starts(rest, p2.len() as int));
        assert(payload_end(s, st) == p2.len()) by {
            if rest.len() > 0 {
                assert(st[1] == ((p2.len() + 4) as int, 4int));
            } else {
                assert(r =~= Seq::<u8>::empty());
            }
        }
        assert(s[b + 4] == u[0]);
        lemma_reports_of_annexb(p2, rest);
        assert(unit_reports(units) =~= seq![(nal_type_of(u[0]), u.len() as usize)] + unit_reports(
            rest,
        ));
    }
}

/// Scanning the Annex-B framing of well-formed NAL units reports each unit's
/// type and length, in order: the framing and the scan agree.
pub proof fn lemma_scan_recovers_units(units: Seq<Seq<u8>>)
    requires
        well_formed_units(units),
    ensures
        scan_spec(annexb_of(units)) == unit_reports(units),
{
    let p = Seq::<u8>::empty();
    assert(p + annexb_of(units) =~= annexb_of(units));
    lemma_starts_of_annexb(p, units);
    lemma_reports_of_annexb(p, units);
}

/// The units parsed out of an AVCC buffer are never empty.
pub proof fn lemma_avcc_units_nonempty(s: Seq<u8>, n: nat)
    ensures
        avcc_units(s, n) matches Some(units) ==> forall|i: int|
            0 <= i < units.len() ==> #[trigger] units[i].len() > 0,
    decreases s.len(),
{
    if s.len() > 0 && n > 0 && s.len() >= n {
        let len = be_value(s.take(n as int));
        if len > 0 && n + len <= s.len() {
            lemma_avcc_units_nonempty(s.skip((n + len) as int), n);
            if let Some(rest) = avcc_units(s.skip((n + len) as int), n) {
                let units = seq![s.subrange(n as int, (n + len) as int)] + rest;
                assert forall|i: int| 0 <= i < units.len() implies #[trigger] units[i].len() > 0 by {
                    if i > 0 {
                        assert(units[i] == rest[i - 1]);
                    }
                }
            }
        }
    }
}

/// Converting an AVCC buffer and scanning the result gives back the type and
/// length of every NAL unit it held, provided the payloads are free of
/// start-code emulation.
pub proof fn lemma_avcc_round_trip(avcc: Seq<u8>, n: nat)
    requires
        avcc_to_annexb_spec(avcc, n) is Some,
        forall|i: int|
            0 <= i < avcc_units(avcc, n)->0.len() ==> emulation_free(
                #[trigger] avcc_units(avcc, n)->0[i],
            ),
    ensures
        scan_spec(avcc_to_annexb_spec(avcc, n)->0) == unit_reports(avcc_units(avcc, n)->0),
{
    lemma_avcc_units_nonempty(avcc, n);
    let units = avcc_units(avcc, n)->0;
    assert(well_formed_units(units));
    lemma_scan_recovers_units(units);
}

/// Framing parameter sets and scanning the result gives back one report per
/// set, in order: its type (the low five bits of its first byte) and its
/// exact length, provided no set is empty or holds a `00 00 01`.
pub proof fn lemma_parameter_sets_scan_back(sets: Seq<Vec<u8>>)
    requires
        forall|i: int| 0 <= i < sets.len() ==> #[trigger] sets[i]@.len() > 0 && emulation_free(sets[i]@),
    ensures
        scan_spec(annexb_of(units_of(sets))).len() == sets.len(),
        forall|i: int|
            0 <= i < sets.len() ==> #[trigger] scan_spec(annexb_of(units_of(sets)))[i] == (
                nal_type_of(sets[i]@[0]),
                sets[i]@.len() as usize,
            ),
{
    let units = units_of(sets);
    assert(well_formed_units(units)) by {
        assert forall|i: int| 0 <= i < units.len() implies #[trigger] units[i].len() > 0 && emulation_free(
            units[i],
        ) by {
            assert(units[i] == sets[i]@);
        }
    }
    lemma_scan_recovers_units(units);
    assert forall|i: int| 0 <= i < sets.len() implies #[trigger] scan_spec(annexb_of(units_of(sets)))[i] == (
        nal_type_of(sets[i]@[0]),
        sets[i]@.len() as usize,
    ) by {
        assert(units[i] == sets[i]@);
        assert(unit_reports(units)[i] == (nal_type_of(units[i][0]), units[i].len() as usize));
    }
}

/// The `n`-byte big-endian length field for `len`: the low byte last.
pub open spec fn length_field(len: nat, n: nat) -> Seq<u8>
    decreases n,
{
    if n == 0 {
        Seq::empty()
    } else {
        length_field(len / 256, (n - 1) as nat).push((len % 256) as u8)
    }
}

/// The length-prefixed (AVCC) form of a list of NAL units: each unit after
/// an `n`-byte big-endian field holding its length.
pub open spec fn avcc_of(units: Seq<Seq<u8>>, n: nat) -> Seq<u8>
    decreases units.len(),
{
    if units.len() == 0 {
        Seq::empty()
    } else {
        length_field(units[0].len(), n) + units[0] + avcc_of(units.drop_first(), n)
    }
}

proof fn lemma_length_field(len: nat, n: nat)
    requires
        len < pow256(n),
    ensures
        length_field(len, n).len() == n,
        be_value(length_field(len, n)) == len,
    decreases n,
{
    if n > 0 {
        let p = pow256((n - 1) as nat);
        assert(len / 256 < p) by (nonlinear_arith)
            requires
                len < 256 * p,
        ;
        lemma_length_field(len / 256, (n - 1) as nat);
        let f = length_field(len, n);
        assert(f.drop_last() =~= length_field(len / 256, (n - 1) as nat));
        assert(len == (len / 256) * 256 + len % 256) by (nonlinear_arith);
    } else {
        assert(len < 1);
    }
}

proof fn lemma_avcc_units_of(units: Seq<Seq<u8>>, n: nat)
    requires
        n >= 1,
        forall|i: int| 0 <= i < units.len() ==> 0 < #[trigger] units[i].len() < pow256(n),
    ensures
        avcc_units(avcc_of(units, n), n) == Some(units),
    decreases units.len(),
{
    if units.len() > 0 {
        let u = units[0];
        let rest = units.drop_first();
        assert forall|i: int| 0 <= i < rest.len() implies 0 < #[trigger] rest[i].len() < pow256(n) by {
            assert(rest[i] == units[i + 1]);
        }
        lemma_avcc_units_of(rest, n);
        lemma_length_field(u.len(), n);
        let f = length_field(u.len(), n);
        let r = avcc_of(rest, n);
        let s = avcc_of(units, n);
        assert(s == f + u + r);
        assert(s.take(n as int) =~= f);
        assert(s.subrange(n as int, (n + u.len()) as int) =~= u);
        assert(s.skip((n + u.len()) as int) =~= r);
        assert(seq![u] + rest =~= units);
    } else {
        assert(avcc_of(units, n) =~= Seq::<u8>::empty());
    }
}

/// Each length field is read as its full big-endian value: framing NAL units
/// with `n`-byte length fields (`n` from 1 to 4) and converting the result
/// gives every unit back behind a start code, for units of any length the
/// field can hold. A four-byte field `00 01 00 00`, for instance, announces
/// a 65536-byte unit.
pub proof fn lemma_avcc_lengths_read_in_full(units: Seq<Seq<u8>>, n: nat)
    requires
        1 <= n <= 4,
        forall|i: int| 0 <= i < units.len() ==> 0 < #[trigger] units[i].len() < pow256(n),
    ensures
        avcc_to_annexb_spec(avcc_of(units, n), n) == Some(annexb_of(units)),
{
    lemma_avcc_units_of(units, n);
}

/// The length field of a single unit, written out: a four-byte field holds
/// the unit's length byte by byte, most significant first.
pub proof fn lemma_four_byte_field(len: nat)
    requires
        len < 0x1_0000_0000,
    ensures
        length_field(len, 4) == seq![
            (len / 0x100_0000) as u8,
            ((len / 0x1_0000) % 256) as u8,
            ((len / 256) % 256) as u8,
            (len % 256) as u8,
        ],
{
    reveal_with_fuel(length_field, 5);
    assert(len / 256 / 256 == len / 0x1_0000) by (nonlinear_arith);
    assert(len / 256 / 256 / 256 == len / 0x100_0000) by (nonlinear_arith);
    assert(len / 0x100_0000 < 256) by (nonlinear_arith)
        requires
            len < 0x1_0000_0000,
    ;
    assert(length_field(len, 4) =~= seq![
        (len / 0x100_0000) as u8,
        ((len / 0x1_0000) % 256) as u8,
        ((len / 256) % 256) as u8,
        (len % 256) as u8,
    ]);
}

/// The NAL unit type is the header byte's low five bits: the bits above
/// them (the reference priority and the forbidden bit) never change it.
pub proof fn lemma_nal_type_is_low_bits(b: u8)
    ensures
        nal_type_of(b) == b & 0x1F,
        nal_type_of(b) < 32,
        b < 32 ==> nal_type_of(b) == b,
{
    assert(b % 32 == b & 0x1F) by (bit_vector);
}

} // verus!
