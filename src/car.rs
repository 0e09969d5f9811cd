//! A simulated vehicle: its motion state, the segments it has recently left,
//! and the reconstruction of the polyline its body occupies.
use vstd::prelude::*;
use std::collections::VecDeque;
use crate::interval::{DistanceInterval, TimeInterval};
use crate::network::{covered, pieces_of, slice_spec, Piece, RoadMap, Traversable};

verus! {

#[derive(Debug, Clone, Copy, PartialEq, Eq, Structural)]
pub enum VehicleType {
    Car,
    Bus,
    Bike,
}

/// A vehicle's identity, which also carries the kind of vehicle.
#[derive(Debug, Clone, Copy, PartialEq, Eq, Structural)]
pub struct CarID {
    pub id: usize,
    pub vehicle_type: VehicleType,
}

/// How a vehicle is moving.
#[derive(Debug, Clone, Copy, PartialEq, Eq, Structural)]
pub enum CarState {
    /// The front moves linearly over the distance interval during the time
    /// interval, along the current segment.
    Crossing(TimeInterval, DistanceInterval),
    /// The front stands still.
    Queued,
}

/// The coarse status shown when drawing a vehicle.
#[derive(Debug, Clone, Copy, PartialEq, Eq, Structural)]
pub enum CarStatus {
    Moving,
    Stuck,
}

/// Why a vehicle's body could not be reconstructed.
#[derive(Debug, Clone, Copy, PartialEq, Eq, Structural)]
pub enum DrawError {
    /// The front offset lies before the start of the current segment.
    NegativeFront,
    /// The body should lie within the current segment, but that slice is empty
    /// or runs past the segment's end.
    BodyOffSegment,
    /// The segments kept behind the vehicle are too short to hold its body:
    /// the vehicle was placed too close to short segments.
    HistoryExhausted(CarID),
}

/// What the renderer needs to draw one vehicle.
#[derive(Debug, Clone)]
pub struct DrawCarInput {
    pub id: CarID,
    /// The segment the front currently occupies.
    pub on: Traversable,
    /// The pieces of road covered by the body, rearmost first.
    pub body: Vec<Piece>,
    pub state: CarStatus,
    pub vehicle_type: VehicleType,
}

#[derive(Debug)]
pub struct Car {
    pub id: CarID,
    pub vehicle_len: u64,
    pub max_speed: Option<u64>,
    /// The segments ahead; the front one is the segment the front occupies.
    pub path: VecDeque<Traversable>,
    pub end_dist: u64,
    pub state: CarState,
    /// The segments already left, most recently left first.
    pub last_steps: VecDeque<Traversable>,
}

/// The status drawn for a motion state: queued vehicles look stuck, crossing
/// ones look moving, however slowly they cross.
pub open spec fn status_of(state: CarState) -> CarStatus {
    match state {
        CarState::Queued => CarStatus::Stuck,
        CarState::Crossing(_, _) => CarStatus::Moving,
    }
}

impl CarState {
    pub fn draw_status(&self) -> (r: CarStatus)
        ensures
            r == status_of(*self),
            *self is Queued ==> r == CarStatus::Stuck,
            *self is Crossing ==> r == CarStatus::Moving,
    {
        match self {
            CarState::Queued => CarStatus::Stuck,
            CarState::Crossing(_, _) => CarStatus::Moving,
        }
    }
}

/// The lengths of a run of segments.
pub open spec fn lengths_of(map: &RoadMap, steps: Seq<Traversable>) -> Seq<int> {
    steps.map_values(|on: Traversable| map.length_of(on) as int)
}

/// How many leading segments are kept so that their lengths first reach
/// `need`: the segment that reaches it is kept, and all are kept when they
/// never reach it.
pub open spec fn kept_count(lens: Seq<int>, need: int) -> nat
    decreases lens.len(),
{
    if lens.len() == 0 {
        0
    } else if lens[0] >= need {
        1
    } else {
        1 + kept_count(lens.drop_first(), need - lens[0])
    }
}

/// The sum of a run of lengths.
pub open spec fn total(lens: Seq<int>) -> int
    decreases lens.len(),
{
    if lens.len() == 0 {
        0
    } else {
        lens[0] + total(lens.drop_first())
    }
}

/// The tail piece taken from segment `on` when `leftover` of the body still
/// has to be covered: its last `leftover` units, or all of it when shorter.
pub open spec fn tail_piece(map: &RoadMap, on: Traversable, leftover: int) -> Option<Piece> {
    let len = map.length_of(on);
    let start: u64 = if len >= leftover { (len - leftover) as u64 } else { 0 };
    slice_spec(map, on, start, len)
}

/// Walks the segments left behind from `steps[i]` on, putting the tail of each
/// before `acc`, while `leftover` is positive; each segment lowers `leftover`
/// by its whole length. None when the segments run out first.
pub open spec fn trailing_body(
    map: &RoadMap,
    steps: Seq<Traversable>,
    i: int,
    leftover: int,
    acc: Seq<Piece>,
) -> Option<Seq<Piece>>
    decreases steps.len() - i,
{
    if leftover <= 0 {
        Some(acc)
    } else if i < 0 || i >= steps.len() {
        None
    } else {
        trailing_body(
            map,
            steps,
            i + 1,
            leftover - map.length_of(steps[i]),
            pieces_of(tail_piece(map, steps[i], leftover)) + acc,
        )
    }
}

proof fn lemma_kept_count(lens: Seq<int>, need: int)
    ensures
        kept_count(lens, need) <= lens.len(),
        total(lens.take(kept_count(lens, need) as int)) >= need || kept_count(lens, need)
            == lens.len(),
        kept_count(lens.take(kept_count(lens, need) as int), need) == kept_count(lens, need),
    decreases lens.len(),
{
    if lens.len() > 0 {
        let k = kept_count(lens, need) as int;
        let kept = lens.take(k);
        if lens[0] < need {
            let tail = lens.drop_first();
            lemma_kept_count(tail, need - lens[0]);
            assert(kept.drop_first() =~= tail.take(k - 1));
        } else {
            assert(kept.drop_first() =~= Seq::<int>::empty());
        }
        assert(total(kept) == kept[0] + total(kept.drop_first()));
    }
}

/// Trimming keeps a leading run of the segments left behind whose lengths add
/// up to at least `need`, or all of them when they never do; and trimming
/// that run again keeps all of it.
pub proof fn trim_law(map: &RoadMap, steps: Seq<Traversable>, need: int)
    ensures
        ({
            let k = kept_count(lengths_of(map, steps), need) as int;
            &&& k <= steps.len()
            &&& total(lengths_of(map, steps.take(k))) >= need || k == steps.len()
            &&& kept_count(lengths_of(map, steps.take(k)), need) == k
            &&& steps.take(k).take(k) == steps.take(k)
        }),
{
    let lens = lengths_of(map, steps);
    lemma_kept_count(lens, need);
    let k = kept_count(lens, need) as int;
    assert(lengths_of(map, steps.take(k)) =~= lens.take(k));
    assert(steps.take(k).take(k) =~= steps.take(k));
}

proof fn lemma_kept_count_monotone(lens: Seq<int>, a: int, b: int)
    requires
        a <= b,
    ensures
        kept_count(lens, a) <= kept_count(lens, b),
    decreases lens.len(),
{
    if lens.len() > 0 && lens[0] < a {
        lemma_kept_count_monotone(lens.drop_first(), a - lens[0], b - lens[0]);
    }
}

/// The walk over the segments left behind never looks past the first `m`
/// of them when the walk from `i` is done within them.
proof fn lemma_walk_within(
    map: &RoadMap,
    steps: Seq<Traversable>,
    m: int,
    i: int,
    leftover: int,
    acc: Seq<Piece>,
)
    requires
        0 <= i <= m <= steps.len(),
        leftover <= 0 || i + kept_count(lengths_of(map, steps).subrange(i, steps.len() as int), leftover) <= m,
    ensures
        trailing_body(map, steps, i, leftover, acc) == trailing_body(map, steps.take(m), i, leftover, acc),
    decreases steps.len() - i,
{
    let n = steps.len() as int;
    let lens = lengths_of(map, steps);
    if leftover > 0 {
        if i == n {
            assert(steps.take(m) =~= steps);
        } else {
            let rest = lens.subrange(i, n);
            assert(rest[0] == map.length_of(steps[i]) as int);
            assert(rest.drop_first() =~= lens.subrange(i + 1, n));
            let next = pieces_of(tail_piece(map, steps[i], leftover)) + acc;
            lemma_walk_within(map, steps, m, i + 1, leftover - map.length_of(steps[i]), next);
        }
    }
}

impl Car {
    /// The car can be drawn on this map: it is on a segment, and every segment
    /// ahead or behind is known to the map.
    pub open spec fn placed_on(&self, map: &RoadMap) -> bool {
        self.path@.len() > 0 && map.has_all(self.path@) && map.has_all(self.last_steps@)
    }

    /// The pieces covered by the body when the front is at `front` along the
    /// current segment, rearmost first.
    pub open spec fn body_spec(&self, front: int, map: &RoadMap) -> Result<Seq<Piece>, DrawError> {
        let vl = self.vehicle_len as int;
        let on = self.path@[0];
        if front < 0 {
            Err(DrawError::NegativeFront)
        } else if front >= vl {
            match slice_spec(map, on, (front - vl) as u64, front as u64) {
                Some(p) => Ok(seq![p]),
                None => Err(DrawError::BodyOffSegment),
            }
        } else {
            match trailing_body(
                map,
                self.last_steps@,
                0,
                vl - front,
                pieces_of(slice_spec(map, on, 0, front as u64)),
            ) {
                Some(body) => Ok(body),
                None => Err(DrawError::HistoryExhausted(self.id)),
            }
        }
    }

    /// Drops the segments left behind that are no longer needed to hold the
    /// body: keeps the shortest leading run whose lengths reach the vehicle's
    /// length, or all of them when they never do.
    pub fn trim_last_steps(&mut self, map: &RoadMap)
        requires
            map.has_all(old(self).last_steps@),
        ensures
            final(self).last_steps@ == old(self).last_steps@.take(
                kept_count(lengths_of(map, old(self).last_steps@), old(self).vehicle_len as int) as int,
            ),
            final(self).id == old(self).id,
            final(self).vehicle_len == old(self).vehicle_len,
            final(self).max_speed == old(self).max_speed,
            final(self).path@ == old(self).path@,
            final(self).end_dist == old(self).end_dist,
            final(self).state == old(self).state,
    {
        let ghost lens = lengths_of(map, self.last_steps@);
        let n = self.last_steps.len();
        let mut keep: usize = 0;
        let mut remaining: u64 = self.vehicle_len;
        let mut done = false;
        assert(lens.subrange(0, n as int) =~= lens);
        while keep < n && !done
            invariant
                n == self.last_steps@.len(),
                lens == lengths_of(map, self.last_steps@),
                map.has_all(self.last_steps@),
                keep <= n,
                done ==> kept_count(lens, self.vehicle_len as int) == keep,
                !done ==> kept_count(lens, self.vehicle_len as int) == keep + kept_count(
                    lens.subrange(keep as int, n as int),
                    remaining as int,
                ),
            decreases n - keep,
        {
            let len = self.last_steps[keep].length(map);
            let ghost rest = lens.subrange(keep as int, n as int);
            assert(rest[0] == len);
            assert(rest.drop_first() =~= lens.subrange(keep + 1, n as int));
            keep += 1;
            if len >= remaining {
                done = true;
            } else {
                remaining -= len;
            }
        }
        if !done {
            assert(lens.subrange(keep as int, n as int).len() == 0);
        }
        self.last_steps.truncate(keep);
    }

    /// The drawable state of the car when its front is `front` along the
    /// current segment. The body lies within the current segment when the
    /// front is at least a vehicle's length in; otherwise it borrows the tails
    /// of the segments left behind.
    pub fn get_draw_car(&self, front: i64, map: &RoadMap) -> (r: Result<DrawCarInput, DrawError>)
        requires
            self.placed_on(map),
        ensures
            r is Ok <==> self.body_spec(front as int, map) is Ok,
            r is Ok ==> ({
                let d = r->Ok_0;
                &&& d.body@ == self.body_spec(front as int, map)->Ok_0
                &&& d.id == self.id
                &&& d.on == self.path@[0]
                &&& d.state == status_of(self.state)
                &&& d.vehicle_type == self.id.vehicle_type
            }),
            r is Err ==> r->Err_0 == self.body_spec(front as int, map)->Err_0,
    {
        if front < 0 {
            return Err(DrawError::NegativeFront);
        }
        let f = front as u64;
        let on = self.path[0];
        let body: Vec<Piece> = if f >= self.vehicle_len {
            match on.slice(f - self.vehicle_len, f, map) {
                Some(p) => vec![p],
                None => {
                    return Err(DrawError::BodyOffSegment);
                },
            }
        } else {
            let mut result: Vec<Piece> = match on.slice(0, f, map) {
                Some(p) => vec![p],
                None => Vec::new(),
            };
            let ghost steps = self.last_steps@;
            let ghost start_leftover = (self.vehicle_len - f) as int;
            proof {
                assert(result@ =~= pieces_of(slice_spec(map, on, 0, f)));
            }
            let mut leftover: u64 = self.vehicle_len - f;
            let mut i: usize = 0;
            while leftover > 0
                invariant
                    steps == self.last_steps@,
                    map.has_all(steps),
                    i <= steps.len(),
                    trailing_body(map, steps, 0, start_leftover, pieces_of(slice_spec(map, on, 0, f)))
                        is None ==> self.body_spec(front as int, map) == Err::<Seq<Piece>, DrawError>(
                        DrawError::HistoryExhausted(self.id),
                    ),
                    trailing_body(map, steps, 0, start_leftover, pieces_of(slice_spec(map, on, 0, f)))
                        == trailing_body(map, steps, i as int, leftover as int, result@),
                decreases steps.len() - i,
            {
                if i == self.last_steps.len() {
                    assert(trailing_body(map, steps, i as int, leftover as int, result@) is None);
                    return Err(DrawError::HistoryExhausted(self.id));
                }
                let step = self.last_steps[i];
                let len = step.length(map);
                let start: u64 = if len >= leftover { len - leftover } else { 0 };
                let ghost before = result@;
                match step.slice(start, len, map) {
                    Some(p) => {
                        result.insert(0, p);
                    },
                    None => {},
                }
                proof {
                    assert(result@ =~= pieces_of(tail_piece(map, step, leftover as int)) + before);
                    if len >= leftover {
                        assert(trailing_body(map, steps, i + 1, leftover - len, result@) == Some(
                            result@,
                        ));
                    }
                }
                leftover = if len >= leftover { 0 } else { leftover - len };
                i += 1;
            }
            result
        };
        Ok(DrawCarInput {
            id: self.id,
            on,
            body,
            state: self.state.draw_status(),
            vehicle_type: self.id.vehicle_type,
        })
    }
}

/// Trimming the segments left behind never changes the body drawn for any
/// front offset: the walk that builds the body stops within the segments
/// that trimming keeps.
pub proof fn trim_keeps_body(car: &Car, trimmed: &Car, front: int, map: &RoadMap)
    requires
        car.placed_on(map),
        front <= u64::MAX,
        trimmed.id == car.id,
        trimmed.vehicle_len == car.vehicle_len,
        trimmed.path@ == car.path@,
        trimmed.last_steps@ == car.last_steps@.take(
            kept_count(lengths_of(map, car.last_steps@), car.vehicle_len as int) as int,
        ),
    ensures
        trimmed.body_spec(front, map) == car.body_spec(front, map),
{
    let steps = car.last_steps@;
    let lens = lengths_of(map, steps);
    let vl = car.vehicle_len as int;
    lemma_kept_count(lens, vl);
    if 0 <= front < vl {
        lemma_kept_count_monotone(lens, vl - front, vl);
        assert(lens.subrange(0, steps.len() as int) =~= lens);
        let k = kept_count(lens, vl) as int;
        lemma_walk_within(
            map,
            steps,
            k,
            0,
            vl - front,
            pieces_of(slice_spec(map, car.path@[0], 0, front as u64)),
        );
    }
}

/// When the front is at least a vehicle's length into the current segment,
/// the body is the one slice of that segment that ends at the front and
/// covers exactly the vehicle's length; it exists exactly when the vehicle
/// has a length and the front lies within the segment.
pub proof fn whole_body_law(car: &Car, front: int, map: &RoadMap)
    requires
        car.placed_on(map),
        car.vehicle_len <= front <= u64::MAX,
    ensures
        car.body_spec(front, map) is Ok <==> (car.vehicle_len > 0 && front <= map.length_of(
            car.path@[0],
        )),
        car.body_spec(front, map) is Ok ==> ({
            let body = car.body_spec(front, map)->Ok_0;
            &&& body.len() == 1
            &&& body[0].on == car.path@[0]
            &&& body[0].end == front
            &&& covered(body) == car.vehicle_len
        }),
{
    if car.body_spec(front, map) is Ok {
        let body = car.body_spec(front, map)->Ok_0;
        assert(body.drop_last() =~= Seq::<Piece>::empty());
        assert(covered(body.drop_last()) == 0);
        assert(body[0].end - body[0].start == car.vehicle_len);
    }
}

} // verus!
