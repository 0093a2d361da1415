use spellhaven::utils::{pack, IVec2};
use spellhaven::world_generation::chunk_generation::BlockType;
use spellhaven::world_generation::chunk_loading::country_cache::{
    distance_to_end, is_in_box, is_outside_of_countries, step, CountryCache, Path, PathCache,
    PathSearch, PathSegment, StructureCache, COUNTRY_SIZE,
};
use spellhaven::world_generation::voxel_world::ChunkLod;

fn v(x: i32, y: i32) -> IVec2 {
    IVec2 { x, y }
}

fn run(search: &mut PathSearch, penalty: &dyn Fn(IVec2, IVec2) -> Option<i32>) -> usize {
    let mut expansions = 0;
    while let Some(candidate) = search.next_candidate() {
        let mut penalties = Vec::new();
        for i in 0..8 {
            let (direction, _) = step(i);
            let next = v(candidate.state.x + direction.x, candidate.state.y + direction.y);
            if search.wants_step(&candidate, i) {
                penalties.push(penalty(candidate.state, next));
            } else {
                penalties.push(None);
            }
        }
        search.expand(candidate, &penalties);
        expansions += 1;
        assert!(expansions < 200_000);
    }
    expansions
}

fn flat(_: IVec2, _: IVec2) -> Option<i32> {
    Some(0)
}

#[test]
fn flat_straight_road_costs_ten_per_step() {
    // Cities 50 grid steps apart along x, at level 16: 800 world voxels.
    let mut search = PathSearch::new(v(1600, 1600), v(2400, 1600), (v(0, 0), v(1, 0)), ChunkLod::Sixteenth);
    assert_eq!(search.start_pos, v(100, 100));
    assert_eq!(search.end_pos, v(150, 100));
    run(&mut search, &flat);
    assert_eq!(search.cost_to(v(150, 100)), Some(10 * 50 + 4 * 0));
    let path = search.into_path();
    // 50 halfway points and one beyond each end make 52 points and 49 stretches.
    assert_eq!(path.lines.len(), 49);
    // The way is laid from the goal back to the start, along the row z = 1600.
    assert!(path.lines.iter().all(|l| l.start.y == 1600 && l.end.y == 1600));
    assert_eq!(path.lines[0].before, v(2416, 1600));
    assert_eq!(path.lines[0].start, v(2392, 1600));
    assert_eq!(path.lines[0].end, v(2376, 1600));
    assert_eq!(path.lines[48].end, v(1608, 1600));
    // The point beyond the start mirrors the last halfway point but one.
    assert_eq!(path.lines[48].after, v(1576, 1600));
    // The box starts at the world's origin and reaches to the halfway point next to the goal.
    assert_eq!(path.box_pos_start, v(0, 0));
    assert_eq!(path.box_pos_end, v(2392, 1600));
}

#[test]
fn flat_road_with_a_diagonal_part_costs_the_direct_way() {
    let mut search = PathSearch::new(v(1600, 1600), v(2400, 1920), (v(0, 0), v(1, 0)), ChunkLod::Sixteenth);
    run(&mut search, &flat);
    // dx = 50, dy = 20 grid steps.
    assert_eq!(search.cost_to(search.end_pos), Some(10 * 50 + 4 * 20));
    assert_eq!(distance_to_end(search.start_pos, search.end_pos), 580);
}

#[test]
fn road_never_enters_blocked_ground() {
    // A wall across the direct way, open only far to the side.
    let wall = |_: IVec2, next: IVec2| {
        if next.x == 120 && next.y < 140 {
            None
        } else {
            Some(0)
        }
    };
    let mut search = PathSearch::new(v(1600, 1600), v(2400, 1600), (v(0, 0), v(1, 0)), ChunkLod::Sixteenth);
    run(&mut search, &wall);
    let cost = search.cost_to(search.end_pos).unwrap();
    assert!(cost > 500);
    // Walk back from the goal: no point of the way lies in the wall.
    let mut current = search.end_pos;
    let mut steps = 0;
    while current != search.start_pos {
        assert!(!(current.x == 120 && current.y < 140));
        assert!(!is_outside_of_countries(current, 16, (v(0, 0), v(1, 0))));
        let prev = search.previous[&pack(current)];
        assert!((prev.x - current.x).abs() <= 1 && (prev.y - current.y).abs() <= 1);
        assert!(search.cost_to(prev).unwrap() < search.cost_to(current).unwrap());
        current = prev;
        steps += 1;
    }
    assert!(steps >= 50);
}

#[test]
fn terrain_penalties_add_to_the_cost() {
    let hilly = |_: IVec2, _: IVec2| Some(3);
    let mut search = PathSearch::new(v(1600, 1600), v(1760, 1600), (v(0, 0), v(1, 0)), ChunkLod::Sixteenth);
    run(&mut search, &hilly);
    assert_eq!(search.cost_to(search.end_pos), Some(10 * 13));
}

#[test]
fn unreachable_goal_gives_an_empty_road() {
    // Every step is too steep: the search ends at once and no road is laid.
    let mut search = PathSearch::new(v(1600, 1600), v(2400, 1600), (v(0, 0), v(1, 0)), ChunkLod::Sixteenth);
    let expansions = run(&mut search, &|_, _| None);
    assert_eq!(expansions, 1);
    assert_eq!(search.cost_to(search.end_pos), None);
    let path = search.into_path();
    assert!(path.lines.is_empty());
    assert_eq!(path.box_pos_start, v(0, 0));
    assert_eq!(path.box_pos_end, v(0, 0));
}

#[test]
fn short_way_makes_no_stretch() {
    // Two steps give three points, too few for a road.
    let mut search = PathSearch::new(v(1600, 1600), v(1632, 1600), (v(0, 0), v(1, 0)), ChunkLod::Sixteenth);
    run(&mut search, &flat);
    assert_eq!(search.cost_to(search.end_pos), Some(20));
    assert!(search.into_path().lines.is_empty());
}

#[test]
fn first_step_must_go_along_an_axis() {
    // From rest, a diagonal step turns too far; the goal one diagonal step away
    // cannot be reached directly.
    let mut search = PathSearch::new(v(1600, 1600), v(1616, 1616), (v(0, 0), v(1, 0)), ChunkLod::Sixteenth);
    let first = search.next_candidate().unwrap();
    assert_eq!(first.direction, v(0, 0));
    for i in 0..4 {
        assert!(search.wants_step(&first, i));
    }
    for i in 4..8 {
        assert!(!search.wants_step(&first, i));
    }
}

#[test]
fn steps_outside_both_countries_are_refused() {
    let mut search = PathSearch::new(v(0, 16), v(1600, 16), (v(0, 0), v(1, 0)), ChunkLod::Sixteenth);
    let first = search.next_candidate().unwrap();
    assert_eq!(first.state, v(0, 1));
    // The step to x = -1 leaves the countries.
    assert!(!search.wants_step(&first, 2));
    assert!(search.wants_step(&first, 0));
    assert!(is_outside_of_countries(v(-1, 1), 16, (v(0, 0), v(1, 0))));
    assert!(!is_outside_of_countries(v(4095, 1), 16, (v(0, 0), v(1, 0))));
    assert!(is_outside_of_countries(v(4096, 1), 16, (v(0, 0), v(1, 0))));
    assert!(is_outside_of_countries(v(0, 2048), 16, (v(0, 0), v(1, 0))));
}

#[test]
fn heuristic_is_ten_per_axis_step_and_fourteen_per_diagonal() {
    assert_eq!(distance_to_end(v(0, 0), v(3, 0)), 30);
    assert_eq!(distance_to_end(v(0, 0), v(3, 3)), 42);
    assert_eq!(distance_to_end(v(5, -2), v(-1, 2)), 10 * 6 + 4 * 4);
    assert_eq!(step(0), (v(1, 0), 10));
    assert_eq!(step(3), (v(0, -1), 10));
    assert_eq!(step(6), (v(-1, -1), 14));
}

#[test]
fn box_test_counts_the_margin_on_both_sides() {
    let path = Path { lines: Vec::new(), box_pos_start: v(10, 20), box_pos_end: v(30, 40) };
    assert!(path.is_in_box(v(10, 20), v(0, 0)));
    assert!(path.is_in_box(v(30, 40), v(0, 0)));
    assert!(!path.is_in_box(v(9, 20), v(0, 0)));
    assert!(path.is_in_box(v(5, 45), v(5, 5)));
    assert!(!path.is_in_box(v(5, 46), v(5, 5)));
    assert!(is_in_box(v(0, 0), v(1, 1), v(-3, 4), v(3, 3)));
    let segment = PathSegment { start: v(0, 0), end: v(1, 0), before: v(-1, 0), after: v(2, 0) };
    assert_eq!(segment.after, v(2, 0));
}

#[test]
fn city_lies_inside_its_country_and_off_the_border() {
    for key in [v(0, 0), v(-3, 2), v(7, -5)] {
        let cache = StructureCache::generate(key, 3);
        let low_x = key.x * COUNTRY_SIZE + 100;
        let low_y = key.y * COUNTRY_SIZE + 100;
        assert!(low_x <= cache.city_location.x && cache.city_location.x < low_x + COUNTRY_SIZE - 200);
        assert!(low_y <= cache.city_location.y && cache.city_location.y < low_y + COUNTRY_SIZE - 200);
    }
}

#[test]
fn city_depends_on_seed_and_country_alone() {
    let a = StructureCache::generate(v(2, 5), 42);
    let b = StructureCache::generate(v(2, 5), 42);
    assert_eq!(a, b);
    let others = [
        StructureCache::generate(v(2, 5), 43),
        StructureCache::generate(v(3, 5), 42),
        StructureCache::generate(v(2, 6), 42),
    ];
    // Offsets within the countries differ somewhere: the places are drawn, not fixed.
    let offset = |c: StructureCache, key: IVec2| {
        (c.city_location.x - key.x * COUNTRY_SIZE, c.city_location.y - key.y * COUNTRY_SIZE)
    };
    let base = offset(a, v(2, 5));
    assert!(
        offset(others[0], v(2, 5)) != base
            || offset(others[1], v(3, 5)) != base
            || offset(others[2], v(2, 6)) != base
    );
}

#[test]
fn country_provides_roads_to_its_upper_neighbours() {
    let (along_x, along_y) = PathCache::generate(v(4, -2), 9);
    assert_eq!(along_x.start, StructureCache::generate(v(4, -2), 9).city_location);
    assert_eq!(along_x.end, StructureCache::generate(v(5, -2), 9).city_location);
    assert_eq!(along_y.end, StructureCache::generate(v(4, -1), 9).city_location);
    assert_eq!(along_x.countries, (v(4, -2), v(5, -2)));
    assert_eq!(along_y.countries, (v(4, -2), v(4, -1)));
    assert_eq!(along_x.lod, ChunkLod::Sixteenth);
    assert_eq!(CountryCache::path_cache_keys(v(4, -2)), (v(4, -2), v(3, -2), v(4, -3)));
}

#[test]
fn country_cache_carries_tint_and_city() {
    let empty = || PathCache { paths: Vec::new() };
    let cache = CountryCache::generate(v(1, 1), 5, (10, 20, 30), empty(), empty(), empty());
    assert_eq!(cache.country_pos, v(1, 1));
    assert_eq!(cache.grass_color, BlockType::Custom(10, 20, 30));
    assert_eq!(cache.structure_cache, StructureCache::generate(v(1, 1), 5));
}

#[test]
fn cities_of_known_seeds_lie_where_the_generator_draws_them() {
    assert_eq!(StructureCache::generate(v(0, 0), 3).city_location, v(15417, 3903));
    assert_eq!(StructureCache::generate(v(0, 0), 4).city_location, v(16936, 19948));
    assert_eq!(StructureCache::generate(v(2, 5), 42).city_location, v(90629, 165173));
    assert_eq!(StructureCache::generate(v(-3, 2), 42).city_location, v(-96489, 97371));
}
