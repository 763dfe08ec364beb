//! Labels naming the polynomials, linear combinations and query points of the
//! protocol.
//!
//! Wherever the wire format speaks of a label it is one of these values; the
//! canonical order of the index-polynomial labels is the ascending order of
//! their ranks.

use vstd::prelude::*;

verus! {

/// Number of index polynomials committed per circuit.
pub const NUM_INDEX_POLYS: usize = 12;

/// The twelve index polynomials of one circuit, in canonical ascending order.
#[derive(Clone, Copy, Debug, PartialEq, Eq, Structural)]
pub enum IndexLabel {
    ColA,
    ColB,
    ColC,
    RowA,
    RowB,
    RowC,
    RowColA,
    RowColB,
    RowColC,
    ValA,
    ValB,
    ValC,
}

/// The rank of an index label in the canonical order.
pub open spec fn spec_index_label_rank(l: IndexLabel) -> int {
    match l {
        IndexLabel::ColA => 0,
        IndexLabel::ColB => 1,
        IndexLabel::ColC => 2,
        IndexLabel::RowA => 3,
        IndexLabel::RowB => 4,
        IndexLabel::RowC => 5,
        IndexLabel::RowColA => 6,
        IndexLabel::RowColB => 7,
        IndexLabel::RowColC => 8,
        IndexLabel::ValA => 9,
        IndexLabel::ValB => 10,
        IndexLabel::ValC => 11,
    }
}

/// The index label of a given canonical rank.
pub open spec fn spec_index_label_of_rank(i: int) -> IndexLabel {
    if i == 0 {
        IndexLabel::ColA
    } else if i == 1 {
        IndexLabel::ColB
    } else if i == 2 {
        IndexLabel::ColC
    } else if i == 3 {
        IndexLabel::RowA
    } else if i == 4 {
        IndexLabel::RowB
    } else if i == 5 {
        IndexLabel::RowC
    } else if i == 6 {
        IndexLabel::RowColA
    } else if i == 7 {
        IndexLabel::RowColB
    } else if i == 8 {
        IndexLabel::RowColC
    } else if i == 9 {
        IndexLabel::ValA
    } else if i == 10 {
        IndexLabel::ValB
    } else {
        IndexLabel::ValC
    }
}

/// The index label of a given canonical rank.
pub fn index_label_of_rank(i: usize) -> (l: IndexLabel)
    requires
        i < NUM_INDEX_POLYS,
    ensures
        l == spec_index_label_of_rank(i as int),
        spec_index_label_rank(l) == i as int,
{
    if i == 0 {
        IndexLabel::ColA
    } else if i == 1 {
        IndexLabel::ColB
    } else if i == 2 {
        IndexLabel::ColC
    } else if i == 3 {
        IndexLabel::RowA
    } else if i == 4 {
        IndexLabel::RowB
    } else if i == 5 {
        IndexLabel::RowC
    } else if i == 6 {
        IndexLabel::RowColA
    } else if i == 7 {
        IndexLabel::RowColB
    } else if i == 8 {
        IndexLabel::RowColC
    } else if i == 9 {
        IndexLabel::ValA
    } else if i == 10 {
        IndexLabel::ValB
    } else {
        IndexLabel::ValC
    }
}

/// The rank of an index label in the canonical order.
pub fn index_label_rank(l: IndexLabel) -> (r: usize)
    ensures
        r as int == spec_index_label_rank(l),
        r < NUM_INDEX_POLYS,
{
    match l {
        IndexLabel::ColA => 0,
        IndexLabel::ColB => 1,
        IndexLabel::ColC => 2,
        IndexLabel::RowA => 3,
        IndexLabel::RowB => 4,
        IndexLabel::RowC => 5,
        IndexLabel::RowColA => 6,
        IndexLabel::RowColB => 7,
        IndexLabel::RowColC => 8,
        IndexLabel::ValA => 9,
        IndexLabel::ValB => 10,
        IndexLabel::ValC => 11,
    }
}

/// The kinds of per-instance witness polynomials of the first round.
#[derive(Clone, Copy, Debug, PartialEq, Eq, Structural)]
pub enum WitnessKind {
    W,
    ZA,
    ZB,
}

/// A label of one committed polynomial.
///
/// Index labels carry the position of their circuit in the batch; witness
/// labels carry the global instance index; third-round labels carry the
/// circuit position.
#[derive(Clone, Copy, Debug, PartialEq, Eq, Structural)]
pub enum PolyLabel {
    Index(usize, IndexLabel),
    Witness(WitnessKind, usize),
    MaskPoly,
    G1,
    H1,
    GA(usize),
    GB(usize),
    GC(usize),
    H2,
}

/// A label of one linear combination.
#[derive(Clone, Copy, Debug, PartialEq, Eq, Structural)]
pub enum LcLabel {
    /// The certificate subprotocol's single combination.
    CircuitCheck,
    /// The direct opening of one committed polynomial.
    PolyLc(PolyLabel),
}

/// The name of a query point.
#[derive(Clone, Copy, Debug, PartialEq, Eq, Structural)]
pub enum PointName {
    /// The batch protocol's evaluation point.
    Beta,
    /// The certificate subprotocol's evaluation point.
    Challenge,
}

} // verus!
