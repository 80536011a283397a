use vstd::prelude::*;

use crate::morton::{
    compact_int64_to_int32, interleave, is_interleaving, lemma_code_below_limit,
    lemma_compaction_interleaves, lemma_grid_pair_below_limit,
    lemma_interleaving_determines_code, lemma_interleaving_determines_pair, CODE_LIMIT,
    GRID_SIZE,
};

verus! {

/// The row and column of a cell in the latitude / longitude grid.
#[derive(Clone, Copy, Debug, PartialEq, Eq, Structural)]
pub struct GridIndex {
    pub latitude: u32,
    pub longitude: u32,
}

impl GridIndex {
    /// Both indices lie inside the grid, below `GRID_SIZE`.
    pub open spec fn in_grid(self) -> bool {
        self.latitude < GRID_SIZE && self.longitude < GRID_SIZE
    }

    /// `code` is the code of this cell: latitude bits at the even positions,
    /// longitude bits at the odd ones.
    pub open spec fn is_code(self, code: u64) -> bool {
        is_interleaving(code, self.latitude, self.longitude)
    }

    pub fn new(latitude: u32, longitude: u32) -> (r: GridIndex)
        ensures
            r.latitude == latitude,
            r.longitude == longitude,
    {
        GridIndex { latitude, longitude }
    }

    pub fn is_in_grid(&self) -> (r: bool)
        ensures
            r == self.in_grid(),
    {
        self.latitude < GRID_SIZE && self.longitude < GRID_SIZE
    }
}

/// The code of a grid cell. Indices outside the grid are interleaved as they
/// are; inside it the code fits in `2 * GRID_BITS` bits.
pub fn encode_grid(index: GridIndex) -> (code: u64)
    ensures
        index.is_code(code),
        index.in_grid() <==> code < CODE_LIMIT,
{
    interleave(index.latitude, index.longitude)
}

/// The code of a grid cell, or `None` when an index lies outside the grid.
pub fn encode_grid_checked(index: GridIndex) -> (r: Option<u64>)
    ensures
        r.is_some() <==> index.in_grid(),
        r matches Some(code) ==> index.is_code(code) && code < CODE_LIMIT,
{
    if index.is_in_grid() {
        Some(encode_grid(index))
    } else {
        None
    }
}

/// The grid cell of a code: latitude from its even bits, longitude from its
/// odd bits. Every code names exactly one cell.
pub fn decode_grid(code: u64) -> (index: GridIndex)
    ensures
        index.is_code(code),
        code < CODE_LIMIT <==> index.in_grid(),
{
    let latitude = compact_int64_to_int32(code);
    let longitude = compact_int64_to_int32(code >> 1u64);
    let index = GridIndex { latitude, longitude };
    proof {
        lemma_compaction_interleaves(code, latitude, longitude);
        if code < CODE_LIMIT {
            lemma_code_below_limit(code, latitude, longitude);
        }
        if index.in_grid() {
            lemma_grid_pair_below_limit(code, latitude, longitude);
        }
    }
    index
}

/// Decoding the code of a cell gives back that cell.
pub proof fn lemma_decode_encode(index: GridIndex, code: u64, back: GridIndex)
    requires
        index.is_code(code),
        back.is_code(code),
    ensures
        back == index,
{
    lemma_interleaving_determines_pair(code, index.latitude, index.longitude, back.latitude, back.longitude);
}

/// Encoding the cell of a code gives back that code.
pub proof fn lemma_encode_decode(code: u64, index: GridIndex, again: u64)
    requires
        index.is_code(code),
        index.is_code(again),
    ensures
        again == code,
{
    lemma_interleaving_determines_code(code, again, index.latitude, index.longitude);
}

} // verus!
