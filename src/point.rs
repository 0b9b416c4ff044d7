use vstd::prelude::*;

verus! {

/// One search hit as a segment reports it.
///
/// `score_bits` holds the IEEE-754 bit pattern of the `f32` score, so that
/// the score can be ordered exactly as `f32::total_cmp` orders it.
#[derive(Clone, Copy, Debug, PartialEq, Eq, Structural)]
pub struct ScoredPoint {
    pub id: u64,
    pub version: u64,
    pub score_bits: u32,
}

/// The position of a score in the total order of `f32` values
/// (`f32::total_cmp`): a non-negative sign keeps the bits, a negative sign
/// reverses the order of the magnitude below all non-negative values.
pub open spec fn score_rank(bits: u32) -> int {
    if bits < 0x8000_0000 {
        bits as int
    } else {
        0x7fff_ffff - bits as int
    }
}

/// `a` is a more recent observation of a point than `b`: a higher version,
/// or the same version with a higher score.
pub open spec fn newer(a: ScoredPoint, b: ScoredPoint) -> bool {
    a.version > b.version || (a.version == b.version && score_rank(a.score_bits) > score_rank(
        b.score_bits,
    ))
}

/// `a` comes before `b` in a result list: a higher score, or an equal score
/// and a smaller identifier.
pub open spec fn ranks_before(a: ScoredPoint, b: ScoredPoint) -> bool {
    score_rank(a.score_bits) > score_rank(b.score_bits) || (score_rank(a.score_bits)
        == score_rank(b.score_bits) && a.id < b.id)
}

/// The total-order key of an `f32` score given by its bits.
pub fn score_key(bits: u32) -> (r: i64)
    ensures
        r == score_rank(bits),
{
    if bits < 0x8000_0000 {
        bits as i64
    } else {
        0x7fff_ffff - bits as i64
    }
}

impl ScoredPoint {
    /// Whether this hit is a more recent observation than `other`.
    pub fn is_newer_than(&self, other: &ScoredPoint) -> (r: bool)
        ensures
            r == newer(*self, *other),
    {
        self.version > other.version || (self.version == other.version && score_key(
            self.score_bits,
        ) > score_key(other.score_bits))
    }

    /// Whether this hit is listed before `other` in a ranked result.
    pub fn ranks_before(&self, other: &ScoredPoint) -> (r: bool)
        ensures
            r == ranks_before(*self, *other),
    {
        let a = score_key(self.score_bits);
        let b = score_key(other.score_bits);
        a > b || (a == b && self.id < other.id)
    }
}

} // verus!
