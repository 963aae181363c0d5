//! Structural checks on an encoded H.264 stream.
//!
//! An encoder that emits plausible bytes is worthless if no decoder accepts
//! them, so a recorded stream is checked for what a client joining at any
//! keyframe needs: parameter sets present and leading the stream, every
//! keyframe carrying its own, and no frame reordering (a single B-frame
//! would add a frame of latency).

use vstd::prelude::*;

verus! {

/// How many NAL units of each interesting type a stream holds.
#[derive(Debug, Clone, Copy, PartialEq, Eq, Structural)]
pub struct NalCounts {
    pub total: usize,
    /// Sequence parameter sets (type 7).
    pub sps: usize,
    /// Picture parameter sets (type 8).
    pub pps: usize,
    /// IDR slices, that is keyframes (type 5).
    pub idr: usize,
    /// Non-IDR slices (type 1).
    pub slices: usize,
}

/// Why a stream fails the structural check.
#[derive(Debug, Clone, Copy, PartialEq, Eq, Structural)]
pub enum StreamProblem {
    /// No SPS or no PPS: a client joining mid-stream could not decode.
    NoParameterSets,
    /// No IDR frame at all.
    NoIdr,
    /// The stream does not begin with an SPS.
    NotLeadingSps,
    /// Fewer SPS than IDR units: some keyframe lacks its parameter sets.
    KeyframeWithoutParameterSets,
}

/// How many reports in `nals` have type `t`.
pub open spec fn count_type(nals: Seq<(u8, usize)>, t: u8) -> nat
    decreases nals.len(),
{
    if nals.len() == 0 {
        0
    } else {
        count_type(nals.drop_last(), t) + if nals.last().0 == t {
            1nat
        } else {
            0nat
        }
    }
}

proof fn lemma_count_le_len(nals: Seq<(u8, usize)>, t: u8)
    ensures
        count_type(nals, t) <= nals.len(),
    decreases nals.len(),
{
    if nals.len() > 0 {
        lemma_count_le_len(nals.drop_last(), t);
    }
}

/// Counts the parameter sets and slices among scanned NAL reports.
pub fn nal_counts(nals: &[(u8, usize)]) -> (c: NalCounts)
    ensures
        c.total == nals@.len(),
        c.sps == count_type(nals@, 7),
        c.pps == count_type(nals@, 8),
        c.idr == count_type(nals@, 5),
        c.slices == count_type(nals@, 1),
{
    let mut c = NalCounts { total: nals.len(), sps: 0, pps: 0, idr: 0, slices: 0 };
    let mut i: usize = 0;
    while i < nals.len()
        invariant
            i <= nals@.len(),
            c.total == nals@.len(),
            c.sps == count_type(nals@.take(i as int), 7),
            c.pps == count_type(nals@.take(i as int), 8),
            c.idr == count_type(nals@.take(i as int), 5),
            c.slices == count_type(nals@.take(i as int), 1),
        decreases nals.len() - i,
    {
        proof {
            let t = nals@.take(i + 1);
            assert(t.drop_last() =~= nals@.take(i as int));
            lemma_count_le_len(nals@.take(i as int), 7);
            lemma_count_le_len(nals@.take(i as int), 8);
            lemma_count_le_len(nals@.take(i as int), 5);
            lemma_count_le_len(nals@.take(i as int), 1);
        }
        let (t, _) = nals[i];
        if t == 7 {
            c.sps = c.sps + 1;
        } else if t == 8 {
            c.pps = c.pps + 1;
        } else if t == 5 {
            c.idr = c.idr + 1;
        } else if t == 1 {
            c.slices = c.slices + 1;
        }
        i += 1;
    }
    proof {
        assert(nals@.take(i as int) =~= nals@);
    }
    c
}

/// The verdict of the structural check on scanned NAL reports.
pub open spec fn structure_verdict(nals: Seq<(u8, usize)>) -> Result<(), StreamProblem> {
    if count_type(nals, 7) == 0 || count_type(nals, 8) == 0 {
        Err(StreamProblem::NoParameterSets)
    } else if count_type(nals, 5) == 0 {
        Err(StreamProblem::NoIdr)
    } else if !(nals.len() > 0 && nals[0].0 == 7) {
        Err(StreamProblem::NotLeadingSps)
    } else if count_type(nals, 7) < count_type(nals, 5) {
        Err(StreamProblem::KeyframeWithoutParameterSets)
    } else {
        Ok(())
    }
}

/// What the structural check demands of a stream it accepts, and what it
/// answers for one whose keyframes outnumber its sequence parameter sets:
/// an accepted stream leads with an SPS, holds an SPS and a PPS, holds at
/// least one keyframe, and has at least as many SPS as keyframes; a stream
/// that passes the other checks with fewer SPS than keyframes is refused as
/// `KeyframeWithoutParameterSets`.
pub proof fn lemma_keyframes_need_sps(nals: Seq<(u8, usize)>)
    ensures
        structure_verdict(nals) is Ok ==> {
            &&& nals.len() > 0 && nals[0].0 == 7
            &&& count_type(nals, 7) > 0 && count_type(nals, 8) > 0 && count_type(nals, 5) > 0
            &&& count_type(nals, 7) >= count_type(nals, 5)
        },
        (count_type(nals, 8) > 0 && nals.len() > 0 && nals[0].0 == 7 && 0 < count_type(nals, 7) < count_type(
            nals,
            5,
        )) ==> structure_verdict(nals) == Err::<(), StreamProblem>(StreamProblem::KeyframeWithoutParameterSets),
{
}

/// Checks that a stream carries its parameter sets in band, begins with
/// them, and has at least one keyframe, each with its own SPS.
pub fn check_structure(nals: &[(u8, usize)]) -> (r: Result<NalCounts, StreamProblem>)
    ensures
        match r {
            Ok(c) => structure_verdict(nals@) is Ok && c.total == nals@.len() && c.sps == count_type(nals@, 7)
                && c.pps == count_type(nals@, 8) && c.idr == count_type(nals@, 5) && c.slices
                == count_type(nals@, 1),
            Err(p) => structure_verdict(nals@) == Err::<(), StreamProblem>(p),
        },
        r is Ok ==> count_type(nals@, 7) >= count_type(nals@, 5),
        r is Ok ==> count_type(nals@, 7) > 0 && count_type(nals@, 8) > 0 && count_type(nals@, 5) > 0,
        r is Ok ==> nals@.len() > 0 && nals@[0].0 == 7,
{
    let c = nal_counts(nals);
    if c.sps == 0 || c.pps == 0 {
        return Err(StreamProblem::NoParameterSets);
    }
    if c.idr == 0 {
        return Err(StreamProblem::NoIdr);
    }
    if !(nals.len() > 0 && nals[0].0 == 7) {
        return Err(StreamProblem::NotLeadingSps);
    }
    if c.sps < c.idr {
        return Err(StreamProblem::KeyframeWithoutParameterSets);
    }
    Ok(c)
}

/// How many times a timestamp is smaller than the one before it.
pub open spec fn reorders(pts: Seq<i64>) -> nat
    decreases pts.len(),
{
    if pts.len() < 2 {
        0
    } else {
        reorders(pts.drop_last()) + if pts.last() < pts[pts.len() - 2] {
            1nat
        } else {
            0nat
        }
    }
}

proof fn lemma_reorders_le_len(pts: Seq<i64>)
    ensures
        reorders(pts) <= pts.len(),
    decreases pts.len(),
{
    if pts.len() >= 2 {
        lemma_reorders_le_len(pts.drop_last());
    }
}

/// Counts the points where presentation timestamps go backwards. With
/// frame reordering disabled there must be none.
pub fn reorder_count(pts: &[i64]) -> (n: usize)
    ensures
        n == reorders(pts@),
{
    let mut n: usize = 0;
    let mut i: usize = 1;
    if pts.len() < 2 {
        return 0;
    }
    assert(reorders(pts@.take(1)) == 0);
    while i < pts.len()
        invariant
            1 <= i <= pts@.len(),
            n == reorders(pts@.take(i as int)),
        decreases pts.len() - i,
    {
        proof {
            let t = pts@.take(i + 1);
            assert(t.drop_last() =~= pts@.take(i as int));
            assert(t[t.len() - 2] == pts@[i - 1]);
            lemma_reorders_le_len(pts@.take(i as int));
        }
        if pts[i] < pts[i - 1] {
            n = n + 1;
        }
        i += 1;
    }
    proof {
        assert(pts@.take(i as int) =~= pts@);
    }
    n
}

} // verus!
