//! Countries: the large cells of the world that each hold one city, and the
//! roads between the cities of neighbouring countries.

use vstd::prelude::*;
use std::collections::HashMap;
use crate::random::{draw_pair, draw_u64, seeded_pair, seeded_u64};
use crate::utils::{key_of, lemma_key_round_trip, pack, point_of, IVec2};
use crate::world_generation::chunk_generation::BlockType;
use crate::world_generation::voxel_world::ChunkLod;

verus! {

broadcast use vstd::std_specs::hash::group_hash_axioms;

/// Edge length of a country in world voxels.
pub const COUNTRY_SIZE: i32 = 32768;

/// Largest magnitude of a country coordinate that road search accepts.
pub const COUNTRY_LIMIT: i32 = 8192;

/// Largest magnitude of a world coordinate that road search works with.
pub const ROAD_LIMIT: i32 = 268468224;

/// Whether `point` lies in the box from `start` to `end`, widened by `margin` on every side.
pub open spec fn box_contains(start: IVec2, end: IVec2, point: IVec2, margin: IVec2) -> bool {
    &&& start.x - margin.x <= point.x <= end.x + margin.x
    &&& start.y - margin.y <= point.y <= end.y + margin.y
}

/// Tests whether a point lies in a box widened by a margin.
pub fn is_in_box(start: IVec2, end: IVec2, point: IVec2, margin: IVec2) -> (inside: bool)
    ensures
        inside == box_contains(start, end, point, margin),
{
    let px = point.x as i64;
    let py = point.y as i64;
    !(px < start.x as i64 - margin.x as i64 || px > end.x as i64 + margin.x as i64 || py
        < start.y as i64 - margin.y as i64 || py > end.y as i64 + margin.y as i64)
}

/// One stretch of a road: it runs from `start` to `end`; `before` and
/// `after` are the points of the road next to them, which give the stretch
/// its bend.
#[derive(Clone, Copy, Debug, PartialEq, Eq, Structural)]
pub struct PathSegment {
    pub start: IVec2,
    pub end: IVec2,
    pub before: IVec2,
    pub after: IVec2,
}

/// A road between two cities: its stretches in order, from the far city to
/// the near one, and a box that holds its points.
pub struct Path {
    pub lines: Vec<PathSegment>,
    pub box_pos_start: IVec2,
    pub box_pos_end: IVec2,
}

impl Path {
    /// Tests whether a point lies within `margin` of the road's box.
    pub fn is_in_box(&self, point: IVec2, margin: IVec2) -> (inside: bool)
        ensures
            inside == box_contains(self.box_pos_start, self.box_pos_end, point, margin),
    {
        is_in_box(self.box_pos_start, self.box_pos_end, point, margin)
    }
}

/// The absolute value of `v`.
pub open spec fn abs(v: int) -> int {
    if v < 0 {
        -v
    } else {
        v
    }
}

/// The least cost of walking from `from` to `to` over level, open ground: 10
/// for each step along an axis and 14 for each diagonal step.
pub open spec fn octile(from: IVec2, to: IVec2) -> int {
    let dx = abs(to.x - from.x);
    let dy = abs(to.y - from.y);
    if dx < dy {
        dy * 10 + dx * 4
    } else {
        dx * 10 + dy * 4
    }
}

/// Estimates the cost of the way from `pos` to `end`.
pub fn distance_to_end(pos: IVec2, end: IVec2) -> (d: i64)
    ensures
        d == octile(pos, end),
{
    let dx: i64 = if end.x as i64 - pos.x as i64 >= 0 {
        end.x as i64 - pos.x as i64
    } else {
        pos.x as i64 - end.x as i64
    };
    let dy: i64 = if end.y as i64 - pos.y as i64 >= 0 {
        end.y as i64 - pos.y as i64
    } else {
        pos.y as i64 - end.y as i64
    };
    let smaller = if dx < dy {
        dx
    } else {
        dy
    };
    let bigger = if dx > dy {
        dx
    } else {
        dy
    };
    bigger * 10 + smaller * 4
}

/// The eight steps a road can take, in the order they are tried: the four
/// along the axes, then the four diagonals.
pub open spec fn step_direction(i: int) -> IVec2 {
    if i == 0 {
        IVec2 { x: 1, y: 0 }
    } else if i == 1 {
        IVec2 { x: 0, y: 1 }
    } else if i == 2 {
        IVec2 { x: -1i32, y: 0 }
    } else if i == 3 {
        IVec2 { x: 0, y: -1i32 }
    } else if i == 4 {
        IVec2 { x: 1, y: 1 }
    } else if i == 5 {
        IVec2 { x: -1i32, y: 1 }
    } else if i == 6 {
        IVec2 { x: -1i32, y: -1i32 }
    } else {
        IVec2 { x: 1, y: -1i32 }
    }
}

/// What a step costs on level ground: 10 along an axis, 14 diagonally.
pub open spec fn step_weight(i: int) -> int {
    if i < 4 {
        10
    } else {
        14
    }
}

/// The step with number `i`, and what it costs on level ground.
pub fn step(i: usize) -> (r: (IVec2, i32))
    requires
        i < 8,
    ensures
        r.0 == step_direction(i as int),
        r.1 == step_weight(i as int),
{
    if i == 0 {
        (IVec2 { x: 1, y: 0 }, 10)
    } else if i == 1 {
        (IVec2 { x: 0, y: 1 }, 10)
    } else if i == 2 {
        (IVec2 { x: -1, y: 0 }, 10)
    } else if i == 3 {
        (IVec2 { x: 0, y: -1 }, 10)
    } else if i == 4 {
        (IVec2 { x: 1, y: 1 }, 14)
    } else if i == 5 {
        (IVec2 { x: -1, y: 1 }, 14)
    } else if i == 6 {
        (IVec2 { x: -1, y: -1 }, 14)
    } else {
        (IVec2 { x: 1, y: -1 }, 14)
    }
}

/// Whether the world point `pos` times `mult` lies in the country at `country`.
pub open spec fn in_country(pos: IVec2, mult: int, country: IVec2) -> bool {
    &&& country.x * COUNTRY_SIZE <= pos.x * mult < (country.x + 1) * COUNTRY_SIZE
    &&& country.y * COUNTRY_SIZE <= pos.y * mult < (country.y + 1) * COUNTRY_SIZE
}

/// Whether a point of the search grid lies outside both countries that a
/// road connects.
pub open spec fn outside_countries(pos: IVec2, mult: int, countries: (IVec2, IVec2)) -> bool {
    !in_country(pos, mult, countries.0) && !in_country(pos, mult, countries.1)
}

/// Tests whether a point of the search grid lies outside both countries.
pub fn is_outside_of_countries(pos: IVec2, mult: i32, countries: (IVec2, IVec2)) -> (outside: bool)
    requires
        1 <= mult <= 256,
    ensures
        outside == outside_countries(pos, mult as int, countries),
{
    let size = COUNTRY_SIZE as i64;
    let m = mult as i64;
    proof {
        assert(-140737488355328 <= pos.x as int * mult as int <= 140737488355328) by (nonlinear_arith)
            requires
                1 <= mult <= 256,
                -2147483648 <= pos.x <= 2147483647,
        ;
        assert(-140737488355328 <= pos.y as int * mult as int <= 140737488355328) by (nonlinear_arith)
            requires
                1 <= mult <= 256,
                -2147483648 <= pos.y <= 2147483647,
        ;
    }
    let x: i64 = pos.x as i64 * m;
    let y: i64 = pos.y as i64 * m;
    let first = x < countries.0.x as i64 * size || x >= (countries.0.x as i64 + 1) * size || y
        < countries.0.y as i64 * size || y >= (countries.0.y as i64 + 1) * size;
    let second = x < countries.1.x as i64 * size || x >= (countries.1.x as i64 + 1) * size || y
        < countries.1.y as i64 * size || y >= (countries.1.y as i64 + 1) * size;
    first && second
}

/// A place the search may go on from: a grid point, the direction it was
/// reached in, what the way to it costs, and the estimate of the whole way
/// through it to the goal.
#[derive(Clone, Copy, Debug, PartialEq, Eq, Structural)]
pub struct AStarCandidate {
    pub estimated_weight: i64,
    pub real_weight: i32,
    pub state: IVec2,
    pub direction: IVec2,
}

/// What a search is about: where it starts and ends on the search grid,
/// the two countries it may pass through, and the size of a grid step in
/// world voxels.
pub ghost struct SearchEnv {
    pub start: IVec2,
    pub end: IVec2,
    pub countries: (IVec2, IVec2),
    pub mult: int,
}

/// What a search knows: the cost of the best way found to each grid point
/// and the point before it on that way, both by the point's number, and the
/// places it may go on from.
pub ghost struct SearchModel {
    pub weights: Map<u64, i32>,
    pub previous: Map<u64, IVec2>,
    pub queue: Seq<AStarCandidate>,
}

/// Whether the world point of a grid point lies in the range the search works in.
pub open spec fn bounded(p: IVec2, mult: int) -> bool {
    &&& -ROAD_LIMIT <= p.x * mult <= ROAD_LIMIT
    &&& -ROAD_LIMIT <= p.y * mult <= ROAD_LIMIT
}

/// Whether `to` is one of the eight neighbours of `from`.
pub open spec fn adjacent(from: IVec2, to: IVec2) -> bool {
    &&& -1 <= to.x - from.x <= 1
    &&& -1 <= to.y - from.y <= 1
    &&& to != from
}

/// The grid point one step from `from`.
pub open spec fn stepped(from: IVec2, i: int) -> IVec2 {
    IVec2 {
        x: (from.x + step_direction(i).x) as i32,
        y: (from.y + step_direction(i).y) as i32,
    }
}

/// By how much a step in direction `to` turns away from direction `from`.
pub open spec fn turn(from: IVec2, to: IVec2) -> int {
    abs(to.x - from.x) + abs(to.y - from.y)
}

/// Whether a candidate is sound: its point has a recorded cost no higher
/// than the candidate's own, and its estimate adds the level-ground cost
/// of the rest of the way.
pub open spec fn candidate_ok(env: SearchEnv, m: SearchModel, c: AStarCandidate) -> bool {
    &&& m.weights.contains_key(key_of(c.state))
    &&& c.real_weight >= m.weights[key_of(c.state)]
    &&& c.estimated_weight == c.real_weight + octile(c.state, env.end)
    &&& -1 <= c.direction.x <= 1
    &&& -1 <= c.direction.y <= 1
}

/// The invariant of a search.
///
/// The start costs nothing and has no point before it. Every other point
/// with a cost has a point before it, which is one of its neighbours and
/// costs strictly less; the point itself lies in one of the two countries.
/// No cost is lower than the cost of the way from the start over level,
/// open ground.
#[verifier::opaque]
pub open spec fn search_wf(env: SearchEnv, m: SearchModel) -> bool {
    &&& 1 <= env.mult <= 256
    &&& bounded(env.start, env.mult)
    &&& -COUNTRY_LIMIT <= env.countries.0.x <= COUNTRY_LIMIT
    &&& -COUNTRY_LIMIT <= env.countries.0.y <= COUNTRY_LIMIT
    &&& -COUNTRY_LIMIT <= env.countries.1.x <= COUNTRY_LIMIT
    &&& -COUNTRY_LIMIT <= env.countries.1.y <= COUNTRY_LIMIT
    &&& m.weights.contains_key(key_of(env.start))
    &&& m.weights[key_of(env.start)] == 0
    &&& !m.previous.contains_key(key_of(env.start))
    &&& forall|k: u64| #[trigger]
        m.weights.contains_key(k) ==> {
            &&& key_of(point_of(k)) == k
            &&& bounded(point_of(k), env.mult)
            &&& m.weights[k] >= octile(env.start, point_of(k))
            &&& (k == key_of(env.start) || m.previous.contains_key(k))
        }
    &&& forall|k: u64| #[trigger]
        m.previous.contains_key(k) ==> {
            &&& m.weights.contains_key(k)
            &&& m.weights.contains_key(key_of(m.previous[k]))
            &&& m.weights[key_of(m.previous[k])] < m.weights[k]
            &&& adjacent(m.previous[k], point_of(k))
            &&& !outside_countries(point_of(k), env.mult, env.countries)
        }
    &&& forall|j: int| 0 <= j < m.queue.len() ==> candidate_ok(env, m, #[trigger] m.queue[j])
}

/// The candidate that the step with number `i` from the candidate `c`
/// adds to the search, if it adds one. `penalty` is what the terrain adds
/// to the cost of the step, or nothing if the step is too steep.
///
/// The step is not taken if it leaves both countries, if it turns by more
/// than one eighth of a circle, if it is too steep, if its cost cannot be
/// counted, or if the point it leads to has been reached as cheaply before.
pub open spec fn relax_candidate(
    env: SearchEnv,
    m: SearchModel,
    c: AStarCandidate,
    i: int,
    penalty: Option<i32>,
) -> Option<AStarCandidate> {
    let next = stepped(c.state, i);
    let direction = step_direction(i);
    if outside_countries(next, env.mult, env.countries) || turn(c.direction, direction) > 1
        || penalty.is_none() {
        None
    } else {
        let cost = c.real_weight + step_weight(i) + penalty.unwrap();
        if cost > i32::MAX || (m.weights.contains_key(key_of(next)) && cost >= m.weights[key_of(next)]) {
            None
        } else {
            Some(
                AStarCandidate {
                    estimated_weight: (cost + octile(next, env.end)) as i64,
                    real_weight: cost as i32,
                    state: next,
                    direction,
                },
            )
        }
    }
}

/// The search after the step with number `i` from the candidate `c` has been tried.
pub open spec fn relaxed(
    env: SearchEnv,
    m: SearchModel,
    c: AStarCandidate,
    i: int,
    penalty: Option<i32>,
) -> SearchModel {
    match relax_candidate(env, m, c, i, penalty) {
        None => m,
        Some(found) => SearchModel {
            weights: m.weights.insert(key_of(found.state), found.real_weight),
            previous: m.previous.insert(key_of(found.state), c.state),
            queue: m.queue.push(found),
        },
    }
}

/// The search after the first `n` steps from the candidate `c` have been tried in turn.
pub open spec fn expanded(
    env: SearchEnv,
    m: SearchModel,
    c: AStarCandidate,
    penalties: Seq<Option<i32>>,
    n: int,
) -> SearchModel
    decreases n,
{
    if n <= 0 {
        m
    } else {
        relaxed(env, expanded(env, m, c, penalties, n - 1), c, n - 1, penalties[n - 1])
    }
}

/// A step changes both coordinates by at most one, and never leaves the
/// point where it is.
pub proof fn lemma_step_adjacent(from: IVec2, i: int)
    requires
        0 <= i < 8,
        -ROAD_LIMIT <= from.x <= ROAD_LIMIT,
        -ROAD_LIMIT <= from.y <= ROAD_LIMIT,
    ensures
        adjacent(from, stepped(from, i)),
        octile(from, stepped(from, i)) == step_weight(i),
{
}

/// On level, open ground no way is cheaper than the direct one: going to a
/// point and one step on costs at least as much as going to the step's end.
pub proof fn lemma_octile_step(start: IVec2, from: IVec2, i: int)
    requires
        0 <= i < 8,
        -ROAD_LIMIT <= from.x <= ROAD_LIMIT,
        -ROAD_LIMIT <= from.y <= ROAD_LIMIT,
    ensures
        octile(start, stepped(from, i)) <= octile(start, from) + step_weight(i),
{
}

/// A grid point whose world point is in range is itself in range.
pub proof fn lemma_bounded_point(p: IVec2, mult: int)
    requires
        1 <= mult <= 256,
        bounded(p, mult),
    ensures
        -ROAD_LIMIT <= p.x <= ROAD_LIMIT,
        -ROAD_LIMIT <= p.y <= ROAD_LIMIT,
{
    assert(-ROAD_LIMIT <= p.x <= ROAD_LIMIT) by (nonlinear_arith)
        requires
            1 <= mult,
            -ROAD_LIMIT <= p.x * mult <= ROAD_LIMIT,
    ;
    assert(-ROAD_LIMIT <= p.y <= ROAD_LIMIT) by (nonlinear_arith)
        requires
            1 <= mult,
            -ROAD_LIMIT <= p.y * mult <= ROAD_LIMIT,
    ;
}

/// A grid point inside one of the two countries is in range.
pub proof fn lemma_inside_bounded(p: IVec2, env: SearchEnv)
    requires
        1 <= env.mult <= 256,
        -COUNTRY_LIMIT <= env.countries.0.x <= COUNTRY_LIMIT,
        -COUNTRY_LIMIT <= env.countries.0.y <= COUNTRY_LIMIT,
        -COUNTRY_LIMIT <= env.countries.1.x <= COUNTRY_LIMIT,
        -COUNTRY_LIMIT <= env.countries.1.y <= COUNTRY_LIMIT,
        !outside_countries(p, env.mult, env.countries),
    ensures
        bounded(p, env.mult),
{
}

/// Trying a step keeps the invariant of the search.
#[verifier::rlimit(100)]
#[verifier::spinoff_prover]
pub proof fn lemma_relaxed_wf(env: SearchEnv, m: SearchModel, c: AStarCandidate, i: int, penalty: Option<i32>)
    requires
        search_wf(env, m),
        candidate_ok(env, m, c),
        0 <= i < 8,
        penalty matches Some(p) ==> p >= 0,
    ensures
        search_wf(env, relaxed(env, m, c, i, penalty)),
        candidate_ok(env, relaxed(env, m, c, i, penalty), c),
{
    reveal(search_wf);
    let after = relaxed(env, m, c, i, penalty);
    match relax_candidate(env, m, c, i, penalty) {
        None => {},
        Some(found) => {
            let next = found.state;
            let kn = key_of(next);
            let kc = key_of(c.state);
            lemma_key_round_trip(next);
            lemma_key_round_trip(c.state);
            assert(m.weights.contains_key(kc));
            assert(bounded(point_of(kc), env.mult));
            lemma_bounded_point(c.state, env.mult);
            lemma_step_adjacent(c.state, i);
            lemma_octile_step(env.start, c.state, i);
            lemma_inside_bounded(next, env);
            assert(next != c.state);
            assert(kn != kc);
            assert(found.real_weight >= 10);
            assert(kn != key_of(env.start));
            assert forall|k: u64| #[trigger] after.weights.contains_key(k) implies {
                &&& key_of(point_of(k)) == k
                &&& bounded(point_of(k), env.mult)
                &&& after.weights[k] >= octile(env.start, point_of(k))
                &&& (k == key_of(env.start) || after.previous.contains_key(k))
            } by {
                if k != kn {
                    assert(m.weights.contains_key(k));
                }
            }
            assert forall|k: u64| #[trigger] after.previous.contains_key(k) implies {
                &&& after.weights.contains_key(k)
                &&& after.weights.contains_key(key_of(after.previous[k]))
                &&& after.weights[key_of(after.previous[k])] < after.weights[k]
                &&& adjacent(after.previous[k], point_of(k))
                &&& !outside_countries(point_of(k), env.mult, env.countries)
            } by {
                if k != kn {
                    assert(m.previous.contains_key(k));
                    assert(m.weights.contains_key(key_of(m.previous[k])));
                }
            }
            assert forall|j: int| 0 <= j < after.queue.len() implies candidate_ok(
                env,
                after,
                #[trigger] after.queue[j],
            ) by {
                if j < m.queue.len() {
                    assert(candidate_ok(env, m, m.queue[j]));
                }
            }
        },
    }
}

/// What the invariant says of a point that has a cost.
pub proof fn lemma_wf_point(env: SearchEnv, m: SearchModel, p: IVec2)
    requires
        search_wf(env, m),
        m.weights.contains_key(key_of(p)),
    ensures
        1 <= env.mult <= 256,
        bounded(p, env.mult),
        m.weights[key_of(p)] >= octile(env.start, p) >= 0,
        m.weights[key_of(env.start)] == 0,
        p != env.start ==> {
            &&& m.previous.contains_key(key_of(p))
            &&& m.weights.contains_key(key_of(m.previous[key_of(p)]))
            &&& m.weights[key_of(m.previous[key_of(p)])] < m.weights[key_of(p)]
            &&& adjacent(m.previous[key_of(p)], p)
            &&& !outside_countries(p, env.mult, env.countries)
        },
{
    reveal(search_wf);
    lemma_key_round_trip(p);
    lemma_key_round_trip(env.start);
    if p != env.start {
        assert(key_of(p) != key_of(env.start));
    }
}

/// What the invariant says of a point that has a point before it.
pub proof fn lemma_wf_previous(env: SearchEnv, m: SearchModel, p: IVec2)
    requires
        search_wf(env, m),
        m.previous.contains_key(key_of(p)),
    ensures
        p != env.start,
        m.weights.contains_key(key_of(p)),
{
    reveal(search_wf);
}

/// Every waiting candidate is sound.
pub proof fn lemma_wf_candidate(env: SearchEnv, m: SearchModel, j: int)
    requires
        search_wf(env, m),
        0 <= j < m.queue.len(),
    ensures
        candidate_ok(env, m, m.queue[j]),
{
    reveal(search_wf);
}

/// Taking a candidate from those waiting keeps the invariant.
pub proof fn lemma_wf_remove(env: SearchEnv, m: SearchModel, at: int)
    requires
        search_wf(env, m),
        0 <= at < m.queue.len(),
    ensures
        search_wf(env, SearchModel { queue: m.queue.remove(at), ..m }),
{
    reveal(search_wf);
    let after = SearchModel { queue: m.queue.remove(at), ..m };
    assert forall|j: int| 0 <= j < after.queue.len() implies candidate_ok(
        env,
        after,
        #[trigger] after.queue[j],
    ) by {
        if j < at {
            assert(after.queue[j] == m.queue[j]);
            assert(candidate_ok(env, m, m.queue[j]));
        } else {
            assert(after.queue[j] == m.queue[j + 1]);
            assert(candidate_ok(env, m, m.queue[j + 1]));
        }
    }
}

/// A search that knows nothing but its start meets the invariant.
pub proof fn lemma_wf_initial(env: SearchEnv)
    requires
        1 <= env.mult <= 256,
        bounded(env.start, env.mult),
        -COUNTRY_LIMIT <= env.countries.0.x <= COUNTRY_LIMIT,
        -COUNTRY_LIMIT <= env.countries.0.y <= COUNTRY_LIMIT,
        -COUNTRY_LIMIT <= env.countries.1.x <= COUNTRY_LIMIT,
        -COUNTRY_LIMIT <= env.countries.1.y <= COUNTRY_LIMIT,
    ensures
        search_wf(
            env,
            SearchModel {
                weights: Map::<u64, i32>::empty().insert(key_of(env.start), 0),
                previous: Map::<u64, IVec2>::empty(),
                queue: seq![
                    AStarCandidate {
                        estimated_weight: octile(env.start, env.end) as i64,
                        real_weight: 0,
                        state: env.start,
                        direction: IVec2 { x: 0, y: 0 },
                    },
                ],
            },
        ),
{
    reveal(search_wf);
    lemma_key_round_trip(env.start);
}

/// The place of the candidate with the least estimate among those waiting;
/// of several with the least estimate, the first.
pub open spec fn first_min(queue: Seq<AStarCandidate>) -> int
    decreases queue.len(),
{
    if queue.len() <= 1 {
        0
    } else {
        let rest = first_min(queue.drop_last());
        if queue.last().estimated_weight < queue[rest].estimated_weight {
            queue.len() - 1
        } else {
            rest
        }
    }
}

/// No waiting candidate has a lower estimate than the one at `first_min`.
pub proof fn lemma_first_min(queue: Seq<AStarCandidate>, j: int)
    requires
        0 <= j < queue.len(),
    ensures
        0 <= first_min(queue) < queue.len(),
        queue[first_min(queue)].estimated_weight <= queue[j].estimated_weight,
    decreases queue.len(),
{
    if queue.len() > 1 {
        if j < queue.len() - 1 {
            lemma_first_min(queue.drop_last(), j);
        } else {
            lemma_first_min(queue.drop_last(), 0);
        }
    }
}

/// A search for a road between two cities, to be driven step by step:
/// take the next candidate, find out what the terrain adds to each of the
/// eight steps from it, expand it, and so on until no candidate is left.
pub struct PathSearch {
    pub start_pos: IVec2,
    pub end_pos: IVec2,
    pub country_positions: (IVec2, IVec2),
    pub multiplier: i32,
    pub queue: Vec<AStarCandidate>,
    pub previous: HashMap<u64, IVec2>,
    pub weights: HashMap<u64, i32>,
}

impl PathSearch {
    /// What the search is about.
    pub open spec fn env(&self) -> SearchEnv {
        SearchEnv {
            start: self.start_pos,
            end: self.end_pos,
            countries: self.country_positions,
            mult: self.multiplier as int,
        }
    }

    /// What the search knows.
    pub open spec fn model(&self) -> SearchModel {
        SearchModel { weights: self.weights@, previous: self.previous@, queue: self.queue@ }
    }

    /// The invariant of the search.
    pub open spec fn wf(&self) -> bool {
        search_wf(self.env(), self.model())
    }

    /// Whether a way to the goal has been found.
    pub open spec fn reached(&self) -> bool {
        self.previous@.contains_key(key_of(self.end_pos))
    }

    /// Begins the search for a road from the world point `start_pos` to the
    /// world point `end_pos` through the two countries, on a grid of the
    /// given level of detail. Nothing is known yet but the start.
    pub fn new(
        start_pos: IVec2,
        end_pos: IVec2,
        country_positions: (IVec2, IVec2),
        path_finding_lod: ChunkLod,
    ) -> (search: PathSearch)
        requires
            -ROAD_LIMIT <= start_pos.x <= ROAD_LIMIT,
            -ROAD_LIMIT <= start_pos.y <= ROAD_LIMIT,
            -COUNTRY_LIMIT <= country_positions.0.x <= COUNTRY_LIMIT,
            -COUNTRY_LIMIT <= country_positions.0.y <= COUNTRY_LIMIT,
            -COUNTRY_LIMIT <= country_positions.1.x <= COUNTRY_LIMIT,
            -COUNTRY_LIMIT <= country_positions.1.y <= COUNTRY_LIMIT,
        ensures
            search.wf(),
            search.multiplier == path_finding_lod.multiplier(),
            search.start_pos == scaled_down(start_pos, path_finding_lod.multiplier()),
            search.end_pos == scaled_down(end_pos, path_finding_lod.multiplier()),
            search.country_positions == country_positions,
            search.weights@ == Map::<u64, i32>::empty().insert(key_of(search.start_pos), 0),
            search.previous@ == Map::<u64, IVec2>::empty(),
            search.queue@ == seq![
                AStarCandidate {
                    estimated_weight: octile(search.start_pos, search.end_pos) as i64,
                    real_weight: 0,
                    state: search.start_pos,
                    direction: IVec2 { x: 0, y: 0 },
                },
            ],
    {
        let mult = path_finding_lod.multiplier_i32();
        let start = IVec2 {
            x: crate::utils::trunc_div_i32(start_pos.x, mult),
            y: crate::utils::trunc_div_i32(start_pos.y, mult),
        };
        let end = IVec2 {
            x: crate::utils::trunc_div_i32(end_pos.x, mult),
            y: crate::utils::trunc_div_i32(end_pos.y, mult),
        };
        proof {
            lemma_trunc_back(start_pos.x as int, mult as int);
            lemma_trunc_back(start_pos.y as int, mult as int);
        }
        let mut weights: HashMap<u64, i32> = HashMap::new();
        weights.insert(pack(start), 0);
        let mut queue: Vec<AStarCandidate> = Vec::new();
        queue.push(
            AStarCandidate {
                estimated_weight: distance_to_end(start, end),
                real_weight: 0,
                state: start,
                direction: IVec2 { x: 0, y: 0 },
            },
        );
        let search = PathSearch {
            start_pos: start,
            end_pos: end,
            country_positions,
            multiplier: mult,
            queue,
            previous: HashMap::new(),
            weights,
        };
        proof {
            lemma_wf_initial(search.env());
            assert(search.weights@ =~= Map::<u64, i32>::empty().insert(key_of(start), 0));
            assert(search.queue@ =~= seq![
                AStarCandidate {
                    estimated_weight: octile(start, end) as i64,
                    real_weight: 0,
                    state: start,
                    direction: IVec2 { x: 0, y: 0 },
                },
            ]);
            assert(search.previous@ =~= Map::<u64, IVec2>::empty());
        }
        search
    }

    /// Takes the waiting candidate with the least estimate. Nothing is
    /// returned when no candidate is waiting, and when the candidate taken
    /// stands on the goal: in both cases the search is over.
    pub fn next_candidate(&mut self) -> (next: Option<AStarCandidate>)
        requires
            old(self).wf(),
        ensures
            final(self).wf(),
            final(self).env() == old(self).env(),
            final(self).weights@ == old(self).weights@,
            final(self).previous@ == old(self).previous@,
            old(self).queue@.len() == 0 ==> next.is_none() && final(self).queue@ == old(self).queue@,
            old(self).queue@.len() > 0 ==> {
                let at = first_min(old(self).queue@);
                &&& final(self).queue@ == old(self).queue@.remove(at)
                &&& next == (if old(self).queue@[at].state == old(self).end_pos {
                    None
                } else {
                    Some(old(self).queue@[at])
                })
            },
            next matches Some(c) ==> candidate_ok(final(self).env(), final(self).model(), c),
    {
        if self.queue.len() == 0 {
            return None;
        }
        let mut best: usize = 0;
        let mut j: usize = 1;
        while j < self.queue.len()
            invariant
                *self == *old(self),
                1 <= j <= self.queue@.len(),
                best < j,
                best == first_min(self.queue@.take(j as int)),
            decreases self.queue@.len() - j,
        {
            proof {
                assert(self.queue@.take(j + 1).drop_last() =~= self.queue@.take(j as int));
            }
            if self.queue[j].estimated_weight < self.queue[best].estimated_weight {
                best = j;
            }
            j += 1;
        }
        proof {
            assert(self.queue@.take(self.queue@.len() as int) =~= self.queue@);
            lemma_wf_candidate(self.env(), self.model(), best as int);
            lemma_wf_remove(self.env(), self.model(), best as int);
        }
        let candidate = self.queue.remove(best);
        proof {
            assert(self.model() == (SearchModel {
                queue: old(self).model().queue.remove(best as int),
                ..old(self).model()
            }));
        }
        if candidate.state == self.end_pos {
            None
        } else {
            Some(candidate)
        }
    }
}

/// A world coordinate on the search grid: divided by the size of a grid
/// step, rounding toward zero.
pub open spec fn scaled_down(p: IVec2, mult: int) -> IVec2 {
    IVec2 {
        x: crate::utils::trunc_div(p.x as int, mult) as i32,
        y: crate::utils::trunc_div(p.y as int, mult) as i32,
    }
}

/// Dividing rounding toward zero and multiplying back brings a number no further from zero.
pub proof fn lemma_trunc_back(v: int, m: int)
    requires
        m > 0,
    ensures
        v >= 0 ==> 0 <= crate::utils::trunc_div(v, m) * m <= v,
        v < 0 ==> v <= crate::utils::trunc_div(v, m) * m <= 0,
{
    if v >= 0 {
        vstd::arithmetic::div_mod::lemma_fundamental_div_mod(v, m);
        vstd::arithmetic::div_mod::lemma_mod_bound(v, m);
        vstd::arithmetic::div_mod::lemma_div_pos_is_pos(v, m);
        let q = v / m;
        assert(q * m == m * q) by (nonlinear_arith);
        assert(0 <= q * m) by (nonlinear_arith)
            requires
                q >= 0,
                m > 0,
        ;
    } else {
        vstd::arithmetic::div_mod::lemma_fundamental_div_mod(-v, m);
        vstd::arithmetic::div_mod::lemma_mod_bound(-v, m);
        vstd::arithmetic::div_mod::lemma_div_pos_is_pos(-v, m);
        let q = (-v) / m;
        assert((-q) * m == -(m * q)) by (nonlinear_arith);
        assert(0 <= m * q) by (nonlinear_arith)
            requires
                q >= 0,
                m > 0,
        ;
    }
}

/// The world point half a grid step from `current` toward `prev`.
pub open spec fn midpoint(current: IVec2, prev: IVec2, mult: int) -> IVec2 {
    IVec2 {
        x: (current.x * mult + crate::utils::trunc_div((prev.x - current.x) * mult, 2)) as i32,
        y: (current.y * mult + crate::utils::trunc_div((prev.y - current.y) * mult, 2)) as i32,
    }
}

/// The world point one grid step beyond `current`, away from `prev`.
pub open spec fn beyond(current: IVec2, prev: IVec2, mult: int) -> IVec2 {
    IVec2 {
        x: ((2 * current.x - prev.x) * mult) as i32,
        y: ((2 * current.y - prev.y) * mult) as i32,
    }
}

/// The way back from `current` to the start: for each step of the way, the
/// world point halfway between its two ends.
pub open spec fn trail(env: SearchEnv, m: SearchModel, current: IVec2) -> Seq<IVec2>
    decreases m.weights[key_of(current)] as int,
    when search_wf(env, m) && m.weights.contains_key(key_of(current))
    via trail_decreases
{
    if current == env.start {
        Seq::empty()
    } else {
        seq![midpoint(current, m.previous[key_of(current)], env.mult)] + trail(
            env,
            m,
            m.previous[key_of(current)],
        )
    }
}

#[via_fn]
proof fn trail_decreases(env: SearchEnv, m: SearchModel, current: IVec2) {
    if current != env.start {
        lemma_wf_point(env, m, current);
        lemma_wf_point(env, m, m.previous[key_of(current)]);
    }
}

/// The smallest box around the world's origin that holds all of `points`.
pub open spec fn box_of(points: Seq<IVec2>) -> (IVec2, IVec2)
    decreases points.len(),
{
    if points.len() == 0 {
        (IVec2 { x: 0, y: 0 }, IVec2 { x: 0, y: 0 })
    } else {
        let rest = box_of(points.drop_last());
        let p = points.last();
        (
            IVec2 {
                x: if p.x < rest.0.x {
                    p.x
                } else {
                    rest.0.x
                },
                y: if p.y < rest.0.y {
                    p.y
                } else {
                    rest.0.y
                },
            },
            IVec2 {
                x: if p.x > rest.1.x {
                    p.x
                } else {
                    rest.1.x
                },
                y: if p.y > rest.1.y {
                    p.y
                } else {
                    rest.1.y
                },
            },
        )
    }
}

/// The points a road is laid through: one beyond the goal, the halfway
/// points of the way back to the start, and, if that makes four or more,
/// one beyond the start.
pub open spec fn road_points(env: SearchEnv, m: SearchModel) -> Seq<IVec2> {
    let inner = seq![beyond(env.end, m.previous[key_of(env.end)], env.mult)] + trail(env, m, env.end);
    if inner.len() >= 4 {
        inner.push(
            IVec2 {
                x: (2 * (env.start.x * env.mult) - inner[inner.len() - 2].x) as i32,
                y: (2 * (env.start.y * env.mult) - inner[inner.len() - 2].y) as i32,
            },
        )
    } else {
        inner
    }
}

/// The stretches of a road through `points`: one between each two
/// neighbouring points but the first and the last, which only give the
/// outermost stretches their bend. Fewer than five points make no road.
pub open spec fn segments_of(points: Seq<IVec2>) -> Seq<PathSegment> {
    if points.len() < 5 {
        Seq::empty()
    } else {
        Seq::new(
            (points.len() - 3) as nat,
            |j: int|
                PathSegment {
                    start: points[j + 1],
                    end: points[j + 2],
                    before: points[j],
                    after: points[j + 3],
                },
        )
    }
}

impl PathSearch {
    /// Whether the step with number `i` from `candidate` may be taken as
    /// far as the countries and the turn go. Only for such steps does the
    /// terrain have to be looked at.
    pub fn wants_step(&self, candidate: &AStarCandidate, i: usize) -> (wanted: bool)
        requires
            self.wf(),
            candidate_ok(self.env(), self.model(), *candidate),
            i < 8,
        ensures
            wanted == (!outside_countries(
                stepped(candidate.state, i as int),
                self.multiplier as int,
                self.country_positions,
            ) && turn(candidate.direction, step_direction(i as int)) <= 1),
    {
        proof {
            lemma_wf_point(self.env(), self.model(), candidate.state);
            lemma_bounded_point(candidate.state, self.multiplier as int);
        }
        let (direction, _) = step(i);
        let next = IVec2 { x: candidate.state.x + direction.x, y: candidate.state.y + direction.y };
        if is_outside_of_countries(next, self.multiplier, self.country_positions) {
            return false;
        }
        let dx: i32 = direction.x - candidate.direction.x;
        let dy: i32 = direction.y - candidate.direction.y;
        let ax = if dx < 0 {
            -dx
        } else {
            dx
        };
        let ay = if dy < 0 {
            -dy
        } else {
            dy
        };
        ax + ay <= 1
    }

    /// Tries the step with number `i` from `candidate`.
    fn relax_neighbour(&mut self, candidate: AStarCandidate, i: usize, penalty: Option<i32>)
        requires
            old(self).wf(),
            candidate_ok(old(self).env(), old(self).model(), candidate),
            i < 8,
            penalty matches Some(p) ==> p >= 0,
        ensures
            final(self).env() == old(self).env(),
            final(self).model() == relaxed(old(self).env(), old(self).model(), candidate, i as int, penalty),
            final(self).wf(),
            candidate_ok(final(self).env(), final(self).model(), candidate),
    {
        proof {
            lemma_relaxed_wf(self.env(), self.model(), candidate, i as int, penalty);
            lemma_wf_point(self.env(), self.model(), candidate.state);
            lemma_bounded_point(candidate.state, self.multiplier as int);
        }
        if !self.wants_step(&candidate, i) {
            return ;
        }
        let (direction, weight) = step(i);
        let next = IVec2 { x: candidate.state.x + direction.x, y: candidate.state.y + direction.y };
        let added = match penalty {
            None => {
                return ;
            },
            Some(added) => added,
        };
        let cost: i64 = candidate.real_weight as i64 + weight as i64 + added as i64;
        if cost > i32::MAX as i64 {
            return ;
        }
        let key = pack(next);
        let better = match self.weights.get(&key) {
            Some(known) => cost < *known as i64,
            None => true,
        };
        if better {
            let estimated: i64 = cost + distance_to_end(next, self.end_pos);
            self.weights.insert(key, cost as i32);
            self.queue.push(
                AStarCandidate {
                    estimated_weight: estimated,
                    real_weight: cost as i32,
                    state: next,
                    direction,
                },
            );
            self.previous.insert(key, candidate.state);
        }
    }

    /// Tries all eight steps from `candidate` in turn. `penalties` holds,
    /// for each step, what the terrain adds to its cost, or nothing if the
    /// step is too steep.
    pub fn expand(&mut self, candidate: AStarCandidate, penalties: &Vec<Option<i32>>)
        requires
            old(self).wf(),
            candidate_ok(old(self).env(), old(self).model(), candidate),
            penalties@.len() == 8,
            forall|i: int| 0 <= i < 8 ==> (#[trigger] penalties@[i] matches Some(p) ==> p >= 0),
        ensures
            final(self).wf(),
            final(self).env() == old(self).env(),
            final(self).model() == expanded(old(self).env(), old(self).model(), candidate, penalties@, 8),
    {
        let mut i: usize = 0;
        while i < 8
            invariant
                i <= 8,
                self.wf(),
                self.env() == old(self).env(),
                candidate_ok(self.env(), self.model(), candidate),
                penalties@.len() == 8,
                forall|k: int| 0 <= k < 8 ==> (#[trigger] penalties@[k] matches Some(p) ==> p >= 0),
                self.model() == expanded(old(self).env(), old(self).model(), candidate, penalties@, i as int),
            decreases 8 - i,
        {
            self.relax_neighbour(candidate, i, penalties[i]);
            i += 1;
        }
    }

    /// What the best way found to `pos` costs, if one has been found.
    pub fn cost_to(&self, pos: IVec2) -> (cost: Option<i32>)
        ensures
            cost == (if self.weights@.contains_key(key_of(pos)) {
                Some(self.weights@[key_of(pos)])
            } else {
                None
            }),
    {
        match self.weights.get(&pack(pos)) {
            Some(known) => Some(*known),
            None => None,
        }
    }

    /// Lays the road along the way found. If the goal was not reached, the
    /// road is empty.
    pub fn into_path(&self) -> (path: Path)
        requires
            self.wf(),
        ensures
            !self.reached() ==> path.lines@.len() == 0 && path.box_pos_start == (IVec2 { x: 0, y: 0 })
                && path.box_pos_end == (IVec2 { x: 0, y: 0 }),
            self.reached() ==> path.lines@ == segments_of(road_points(self.env(), self.model())) && (
            path.box_pos_start,
            path.box_pos_end,
        ) == box_of(trail(self.env(), self.model(), self.end_pos)),
    {
        let ghost env = self.env();
        let ghost m = self.model();
        let mult = self.multiplier;
        let end_key = pack(self.end_pos);
        let parent = match self.previous.get(&end_key) {
            None => {
                return Path {
                    lines: Vec::new(),
                    box_pos_start: IVec2 { x: 0, y: 0 },
                    box_pos_end: IVec2 { x: 0, y: 0 },
                };
            },
            Some(parent) => *parent,
        };
        let mut min_x: i32 = 0;
        let mut min_y: i32 = 0;
        let mut max_x: i32 = 0;
        let mut max_y: i32 = 0;
        let mut current = self.end_pos;
        let mut points: Vec<IVec2> = Vec::new();
        proof {
            assert(m.previous.contains_key(key_of(self.end_pos)));
            lemma_wf_previous(env, m, self.end_pos);
            lemma_wf_point(env, m, self.end_pos);
            lemma_wf_point(env, m, parent);
            lemma_scaled(self.end_pos, mult as int);
            lemma_scaled(parent, mult as int);
            assert((2 * self.end_pos.x - parent.x) * mult == 2 * (self.end_pos.x * mult) - parent.x * mult)
                by (nonlinear_arith);
            assert((2 * self.end_pos.y - parent.y) * mult == 2 * (self.end_pos.y * mult) - parent.y * mult)
                by (nonlinear_arith);
        }
        points.push(
            IVec2 {
                x: 2 * (self.end_pos.x * mult) - parent.x * mult,
                y: 2 * (self.end_pos.y * mult) - parent.y * mult,
            },
        );
        let ghost first = points@[0];
        let ghost mut walked: Seq<IVec2> = Seq::empty();
        while current != self.start_pos
            invariant
                self.wf(),
                env == self.env(),
                m == self.model(),
                mult == self.multiplier,
                m.weights.contains_key(key_of(current)),
                m.weights.contains_key(key_of(self.end_pos)),
                points@ == seq![first] + walked,
                walked + trail(env, m, current) == trail(env, m, self.end_pos),
                (IVec2 { x: min_x, y: min_y }, IVec2 { x: max_x, y: max_y }) == box_of(walked),
                forall|j: int|
                    0 <= j < walked.len() ==> -ROAD_LIMIT - 128 <= (#[trigger] walked[j]).x <= ROAD_LIMIT
                        + 128 && -ROAD_LIMIT - 128 <= walked[j].y <= ROAD_LIMIT + 128,
            decreases m.weights[key_of(current)] as int,
        {
            let key = pack(current);
            proof {
                lemma_wf_point(env, m, current);
                lemma_wf_point(env, m, m.previous[key]);
                lemma_scaled(current, mult as int);
            }
            let prev = match self.previous.get(&key) {
                Some(prev) => *prev,
                None => {
                    // The invariant of the search rules this out: every
                    // point but the start has a point before it.
                    proof {
                        assert(false);
                    }
                    current
                },
            };
            let dir_x: i32 = prev.x - current.x;
            let dir_y: i32 = prev.y - current.y;
            proof {
                assert(-256 <= dir_x * mult <= 256) by (nonlinear_arith)
                    requires
                        -1 <= dir_x <= 1,
                        1 <= mult <= 256,
                ;
                assert(-256 <= dir_y * mult <= 256) by (nonlinear_arith)
                    requires
                        -1 <= dir_y <= 1,
                        1 <= mult <= 256,
                ;
            }
            let next = IVec2 {
                x: current.x * mult + crate::utils::trunc_div_i32(dir_x * mult, 2),
                y: current.y * mult + crate::utils::trunc_div_i32(dir_y * mult, 2),
            };
            assert(next == midpoint(current, prev, mult as int));
            points.push(next);
            if next.x < min_x {
                min_x = next.x;
            }
            if next.y < min_y {
                min_y = next.y;
            }
            if next.x > max_x {
                max_x = next.x;
            }
            if next.y > max_y {
                max_y = next.y;
            }
            proof {
                let before = walked;
                walked = walked.push(next);
                assert(walked.drop_last() =~= before);
                assert(points@ =~= seq![first] + walked);
                assert(trail(env, m, current) =~= seq![next] + trail(env, m, prev));
                assert(walked + trail(env, m, prev) =~= before + trail(env, m, current));
            }
            current = prev;
        }
        proof {
            assert(trail(env, m, self.start_pos) =~= Seq::<IVec2>::empty());
            assert(walked =~= trail(env, m, self.end_pos));
            lemma_wf_point(env, m, self.start_pos);
            lemma_scaled(self.start_pos, mult as int);
        }
        let last_x: i32 = current.x * mult;
        let last_y: i32 = current.y * mult;
        let mut path: Vec<PathSegment> = Vec::new();
        if points.len() >= 4 {
            let anchor = points[points.len() - 2];
            proof {
                if points@.len() - 2 > 0 {
                    assert(anchor == walked[points@.len() - 3]);
                }
            }
            points.push(IVec2 { x: 2 * last_x - anchor.x, y: 2 * last_y - anchor.y });
            proof {
                assert(points@ =~= road_points(env, m));
            }
            let mut i: usize = 1;
            while i < points.len() - 2
                invariant
                    points@.len() >= 5,
                    1 <= i <= points@.len() - 2,
                    path@.len() == i - 1,
                    forall|j: int|
                        0 <= j < i - 1 ==> #[trigger] path@[j] == (PathSegment {
                            start: points@[j + 1],
                            end: points@[j + 2],
                            before: points@[j],
                            after: points@[j + 3],
                        }),
                decreases points@.len() - i,
            {
                path.push(
                    PathSegment {
                        start: points[i],
                        end: points[i + 1],
                        before: points[i - 1],
                        after: points[i + 2],
                    },
                );
                i += 1;
            }
            proof {
                assert(path@ =~= segments_of(points@));
            }
        } else {
            proof {
                assert(points@ =~= road_points(env, m));
                assert(path@ =~= segments_of(points@));
            }
        }
        Path {
            lines: path,
            box_pos_start: IVec2 { x: min_x, y: min_y },
            box_pos_end: IVec2 { x: max_x, y: max_y },
        }
    }
}

/// The world point of a grid point in range fits the machine's integers.
pub proof fn lemma_scaled(p: IVec2, mult: int)
    requires
        1 <= mult <= 256,
        bounded(p, mult),
    ensures
        -ROAD_LIMIT <= p.x * mult <= ROAD_LIMIT,
        -ROAD_LIMIT <= p.y * mult <= ROAD_LIMIT,
        -ROAD_LIMIT <= p.x <= ROAD_LIMIT,
        -ROAD_LIMIT <= p.y <= ROAD_LIMIT,
{
    lemma_bounded_point(p, mult);
}

/// How far from the edge of its country a city lies at least.
pub const CITY_MARGIN: i32 = 100;

/// Where the city of a country lies.
#[derive(Clone, Copy, Debug, PartialEq, Eq, Structural)]
pub struct StructureCache {
    pub city_location: IVec2,
}

/// A seed moved by the magnitude of `by`: down if `sign` is negative, else
/// up, wrapping round at the ends of the range.
pub open spec fn shifted_seed(seed: u64, sign: i32, by: i32) -> u64 {
    if sign < 0 {
        seed.wrapping_sub(abs(by as int) as u64)
    } else {
        seed.wrapping_add(abs(by as int) as u64)
    }
}

/// The seed from which the place of a country's city is drawn. It is
/// derived from the world's seed and the country's two coordinates in turn.
pub open spec fn city_seed(seed: u64, key: IVec2) -> u64 {
    shifted_seed(seeded_u64(shifted_seed(seed, key.x, key.x)), key.x, key.y)
}

/// The city that lies at `offset` from the corner of the country `key`.
pub open spec fn city_at(key: IVec2, offset: (int, int)) -> IVec2 {
    IVec2 {
        x: (offset.0 + key.x * COUNTRY_SIZE) as i32,
        y: (offset.1 + key.y * COUNTRY_SIZE) as i32,
    }
}

/// Where the city of the country `key` lies in a world with the given seed.
pub open spec fn city_of(seed: u64, key: IVec2) -> IVec2 {
    city_at(
        key,
        seeded_pair(
            city_seed(seed, key),
            CITY_MARGIN as int,
            COUNTRY_SIZE - CITY_MARGIN - 1,
            CITY_MARGIN as int,
            COUNTRY_SIZE - CITY_MARGIN - 1,
        ),
    )
}

/// Moves a seed by the magnitude of `by`, down if `sign` is negative, else up.
pub fn shift_seed(seed: u64, sign: i32, by: i32) -> (shifted: u64)
    requires
        by > i32::MIN,
    ensures
        shifted == shifted_seed(seed, sign, by),
{
    let magnitude: u64 = if by < 0 {
        (-by) as u64
    } else {
        by as u64
    };
    if sign < 0 {
        seed.wrapping_sub(magnitude)
    } else {
        seed.wrapping_add(magnitude)
    }
}

/// Places a city at an offset from the corner of its country.
pub fn place_city(key: IVec2, offset: (i32, i32)) -> (city: IVec2)
    requires
        -COUNTRY_LIMIT <= key.x <= COUNTRY_LIMIT,
        -COUNTRY_LIMIT <= key.y <= COUNTRY_LIMIT,
        0 <= offset.0 < COUNTRY_SIZE,
        0 <= offset.1 < COUNTRY_SIZE,
    ensures
        city == city_at(key, (offset.0 as int, offset.1 as int)),
        in_country(city, 1, key),
{
    IVec2 { x: offset.0 + key.x * COUNTRY_SIZE, y: offset.1 + key.y * COUNTRY_SIZE }
}

impl StructureCache {
    /// Finds the city of the country `key`: a place drawn from a generator
    /// that is seeded from the world's seed and the country's coordinates,
    /// no nearer than the margin to any edge of the country.
    pub fn generate(key: IVec2, seed: u64) -> (cache: StructureCache)
        requires
            -COUNTRY_LIMIT <= key.x <= COUNTRY_LIMIT,
            -COUNTRY_LIMIT <= key.y <= COUNTRY_LIMIT,
        ensures
            cache.city_location == city_of(seed, key),
            key.x * COUNTRY_SIZE + CITY_MARGIN <= cache.city_location.x < (key.x + 1) * COUNTRY_SIZE
                - CITY_MARGIN,
            key.y * COUNTRY_SIZE + CITY_MARGIN <= cache.city_location.y < (key.y + 1) * COUNTRY_SIZE
                - CITY_MARGIN,
    {
        let first = draw_u64(shift_seed(seed, key.x, key.x));
        let second = shift_seed(first, key.x, key.y);
        let offset = draw_pair(
            second,
            CITY_MARGIN,
            COUNTRY_SIZE - CITY_MARGIN - 1,
            CITY_MARGIN,
            COUNTRY_SIZE - CITY_MARGIN - 1,
        );
        StructureCache { city_location: place_city(key, offset) }
    }
}

/// A road to be searched for: from one city to another, through their two
/// countries, on a grid of the given level of detail.
#[derive(Clone, Copy, Debug)]
pub struct RoadPlan {
    pub start: IVec2,
    pub end: IVec2,
    pub countries: (IVec2, IVec2),
    pub lod: ChunkLod,
}

/// The level of detail roads are searched at.
pub const PATH_FINDING_LOD: ChunkLod = ChunkLod::Sixteenth;

/// The road from the city of `key` to the city of the country at `other`.
pub open spec fn road_between(seed: u64, key: IVec2, other: IVec2) -> RoadPlan {
    RoadPlan {
        start: city_of(seed, key),
        end: city_of(seed, other),
        countries: (key, other),
        lod: PATH_FINDING_LOD,
    }
}

/// The roads that belong to a country.
pub struct PathCache {
    pub paths: Vec<Path>,
}

impl PathCache {
    /// The two roads that the country `key` has to provide: to the city of
    /// the next country along x and to the city of the next country along
    /// y. The roads to its other two neighbours are theirs to provide, so
    /// that no road is made twice.
    pub fn generate(key: IVec2, seed: u64) -> (plans: (RoadPlan, RoadPlan))
        requires
            -COUNTRY_LIMIT < key.x < COUNTRY_LIMIT,
            -COUNTRY_LIMIT < key.y < COUNTRY_LIMIT,
        ensures
            plans.0 == road_between(seed, key, IVec2 { x: (key.x + 1) as i32, y: key.y }),
            plans.1 == road_between(seed, key, IVec2 { x: key.x, y: (key.y + 1) as i32 }),
    {
        let top_country_pos = IVec2 { x: key.x + 1, y: key.y };
        let right_country_pos = IVec2 { x: key.x, y: key.y + 1 };
        let current = StructureCache::generate(key, seed);
        let top = StructureCache::generate(top_country_pos, seed);
        let right = StructureCache::generate(right_country_pos, seed);
        (
            RoadPlan {
                start: current.city_location,
                end: top.city_location,
                countries: (key, top_country_pos),
                lod: PATH_FINDING_LOD,
            },
            RoadPlan {
                start: current.city_location,
                end: right.city_location,
                countries: (key, right_country_pos),
                lod: PATH_FINDING_LOD,
            },
        )
    }
}

/// Everything known of one country: the tint of its grass, its city, and
/// the roads that pass through it: its own and those of the two
/// neighbours that provide the roads to it.
pub struct CountryCache {
    pub country_pos: IVec2,
    pub grass_color: BlockType,
    pub structure_cache: StructureCache,
    pub this_path_cache: PathCache,
    pub bottom_path_cache: PathCache,
    pub left_path_cache: PathCache,
}

impl CountryCache {
    /// The countries whose roads pass through the country `key`: the
    /// country itself, the one before it along x, and the one before it along y.
    pub fn path_cache_keys(key: IVec2) -> (keys: (IVec2, IVec2, IVec2))
        requires
            key.x > i32::MIN,
            key.y > i32::MIN,
        ensures
            keys.0 == key,
            keys.1 == (IVec2 { x: (key.x - 1) as i32, y: key.y }),
            keys.2 == (IVec2 { x: key.x, y: (key.y - 1) as i32 }),
    {
        (key, IVec2 { x: key.x - 1, y: key.y }, IVec2 { x: key.x, y: key.y - 1 })
    }

    /// Puts together what is known of the country `key`. The tint of the
    /// grass is any colour the caller has drawn.
    pub fn generate(
        key: IVec2,
        seed: u64,
        tint: (u8, u8, u8),
        this_path_cache: PathCache,
        bottom_path_cache: PathCache,
        left_path_cache: PathCache,
    ) -> (cache: CountryCache)
        requires
            -COUNTRY_LIMIT <= key.x <= COUNTRY_LIMIT,
            -COUNTRY_LIMIT <= key.y <= COUNTRY_LIMIT,
        ensures
            cache.country_pos == key,
            cache.grass_color == BlockType::Custom(tint.0, tint.1, tint.2),
            cache.structure_cache.city_location == city_of(seed, key),
            cache.this_path_cache == this_path_cache,
            cache.bottom_path_cache == bottom_path_cache,
            cache.left_path_cache == left_path_cache,
    {
        CountryCache {
            country_pos: key,
            grass_color: BlockType::Custom(tint.0, tint.1, tint.2),
            structure_cache: StructureCache::generate(key, seed),
            this_path_cache,
            bottom_path_cache,
            left_path_cache,
        }
    }
}

/// The way that the search has found to `current`, as grid points from
/// `current` back to the start.
pub open spec fn way(env: SearchEnv, m: SearchModel, current: IVec2) -> Seq<IVec2>
    decreases m.weights[key_of(current)] as int,
    when search_wf(env, m) && m.weights.contains_key(key_of(current))
    via way_decreases
{
    if current == env.start {
        seq![current]
    } else {
        seq![current] + way(env, m, m.previous[key_of(current)])
    }
}

#[via_fn]
proof fn way_decreases(env: SearchEnv, m: SearchModel, current: IVec2) {
    if current != env.start {
        lemma_wf_point(env, m, current);
        lemma_wf_point(env, m, m.previous[key_of(current)]);
    }
}

/// Every way the search has found is a way: it begins at the point it is
/// the way to and ends at the start; each of its points is a neighbour of
/// the next, lies in one of the two countries unless it is the start, and
/// costs more than the next. And the way costs no less than the direct way
/// from the start over level, open ground costs.
pub proof fn lemma_way_is_sound(env: SearchEnv, m: SearchModel, current: IVec2)
    requires
        search_wf(env, m),
        m.weights.contains_key(key_of(current)),
    ensures
        way(env, m, current).len() >= 1,
        way(env, m, current)[0] == current,
        way(env, m, current).last() == env.start,
        m.weights[key_of(current)] >= octile(env.start, current),
        forall|i: int|
            0 <= i < way(env, m, current).len() ==> m.weights.contains_key(
                key_of(#[trigger] way(env, m, current)[i]),
            ),
        forall|i: int|
            0 <= i < way(env, m, current).len() - 1 ==> {
                let here = #[trigger] way(env, m, current)[i];
                let next = way(env, m, current)[i + 1];
                &&& adjacent(next, here)
                &&& !outside_countries(here, env.mult, env.countries)
                &&& m.weights[key_of(next)] < m.weights[key_of(here)]
                &&& m.previous[key_of(here)] == next
            },
    decreases m.weights[key_of(current)] as int,
{
    lemma_wf_point(env, m, current);
    if current != env.start {
        let prev = m.previous[key_of(current)];
        lemma_wf_point(env, m, prev);
        lemma_way_is_sound(env, m, prev);
        let rest = way(env, m, prev);
        let whole = way(env, m, current);
        assert(whole =~= seq![current] + rest);
        assert forall|i: int| 0 <= i < whole.len() implies m.weights.contains_key(
            key_of(#[trigger] whole[i]),
        ) by {
            if i > 0 {
                assert(whole[i] == rest[i - 1]);
            }
        }
        assert forall|i: int| 0 <= i < whole.len() - 1 implies {
            let here = #[trigger] whole[i];
            let next = whole[i + 1];
            &&& adjacent(next, here)
            &&& !outside_countries(here, env.mult, env.countries)
            &&& m.weights[key_of(next)] < m.weights[key_of(here)]
            &&& m.previous[key_of(here)] == next
        } by {
            if i > 0 {
                assert(whole[i] == rest[i - 1]);
                assert(whole[i + 1] == rest[i]);
            } else {
                assert(whole[1] == rest[0]);
            }
        }
    }
}

/// A step that is too steep, that leaves both countries or that turns too
/// sharply adds nothing to the search: the search never goes that way.
pub proof fn lemma_refused_step_is_not_taken(
    env: SearchEnv,
    m: SearchModel,
    c: AStarCandidate,
    i: int,
    penalty: Option<i32>,
)
    requires
        penalty.is_none() || outside_countries(stepped(c.state, i), env.mult, env.countries) || turn(
            c.direction,
            step_direction(i),
        ) > 1,
    ensures
        relaxed(env, m, c, i, penalty) == m,
{
}

} // verus!
