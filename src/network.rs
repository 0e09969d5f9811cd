//! The road network as this model sees it: directed segments with a length,
//! and slices of them.
//!
//! A polyline occupied by a vehicle is described by the ordered slices of
//! segments that it covers, rearmost first.
use vstd::prelude::*;

verus! {

/// A directed stretch of the network that a vehicle can travel along.
#[derive(Debug, Clone, Copy, PartialEq, Eq, Structural)]
pub enum Traversable {
    Lane(usize),
    Turn(usize),
}

/// The lengths of the network's lanes and turns, indexed by their ids.
#[derive(Debug, Clone)]
pub struct RoadMap {
    pub lane_lengths: Vec<u64>,
    pub turn_lengths: Vec<u64>,
}

impl RoadMap {
    pub fn new(lane_lengths: Vec<u64>, turn_lengths: Vec<u64>) -> (r: RoadMap)
        ensures
            r.lane_lengths@ == lane_lengths@,
            r.turn_lengths@ == turn_lengths@,
    {
        RoadMap { lane_lengths, turn_lengths }
    }

    /// The segment is known to this map.
    pub open spec fn has(&self, on: Traversable) -> bool {
        match on {
            Traversable::Lane(i) => i < self.lane_lengths@.len(),
            Traversable::Turn(i) => i < self.turn_lengths@.len(),
        }
    }

    /// The length of a segment known to this map.
    pub open spec fn length_of(&self, on: Traversable) -> u64 {
        match on {
            Traversable::Lane(i) => self.lane_lengths@[i as int],
            Traversable::Turn(i) => self.turn_lengths@[i as int],
        }
    }

    pub open spec fn has_all(&self, steps: Seq<Traversable>) -> bool {
        forall|i: int| 0 <= i < steps.len() ==> self.has(#[trigger] steps[i])
    }
}

/// The part of segment `on` between the distances `start` and `end` along it.
#[derive(Debug, Clone, Copy, PartialEq, Eq, Structural)]
pub struct Piece {
    pub on: Traversable,
    pub start: u64,
    pub end: u64,
}

/// The slice of `on` from `start` to `end`: none when it is empty or runs past
/// the end of the segment.
pub open spec fn slice_spec(map: &RoadMap, on: Traversable, start: u64, end: u64) -> Option<Piece> {
    if start < end && end <= map.length_of(on) {
        Some(Piece { on, start, end })
    } else {
        None
    }
}

/// The slice as a (possibly empty) run of pieces.
pub open spec fn pieces_of(p: Option<Piece>) -> Seq<Piece> {
    match p {
        Some(piece) => seq![piece],
        None => Seq::empty(),
    }
}

/// The total distance covered by a run of pieces.
pub open spec fn covered(pieces: Seq<Piece>) -> int
    decreases pieces.len(),
{
    if pieces.len() == 0 {
        0
    } else {
        covered(pieces.drop_last()) + (pieces.last().end - pieces.last().start)
    }
}

impl Traversable {
    pub fn length(&self, map: &RoadMap) -> (r: u64)
        requires
            map.has(*self),
        ensures
            r == map.length_of(*self),
    {
        match *self {
            Traversable::Lane(i) => map.lane_lengths[i],
            Traversable::Turn(i) => map.turn_lengths[i],
        }
    }

    /// The part of this segment between `start` and `end`, or none when that
    /// part is empty or does not lie within the segment.
    pub fn slice(&self, start: u64, end: u64, map: &RoadMap) -> (r: Option<Piece>)
        requires
            map.has(*self),
        ensures
            r == slice_spec(map, *self, start, end),
    {
        if start < end && end <= self.length(map) {
            Some(Piece { on: *self, start, end })
        } else {
            None
        }
    }
}

} // verus!
