//! Chunk contents: block types, packed storage, filling and meshing.

use vstd::prelude::*;
use crate::utils::{div_floor, div_floor_spec, IVec2};
use crate::world_generation::chunk_loading::quad_tree_manager::ChunkTaskGenerator;
use crate::world_generation::generation_options::{
    claim_of, claimed, CacheClaim, GenerationCache, GenerationState,
};

pub mod mesh_generation;
pub mod noise;
pub mod structure_generator;
pub mod voxel_generation;
pub mod voxel_types;

verus! {

/// Edge length of a chunk in voxels, not counting the one-voxel halo on each side.
pub const CHUNK_SIZE: usize = 64;

/// Edge length of the stored block grid: the chunk and its halo.
pub const GRID_SIZE: usize = 66;

/// What a voxel is made of.
#[derive(Copy, Clone, Debug, PartialEq, Eq, Hash, Structural)]
pub enum BlockType {
    Air,
    Stone,
    Grass(u8),
    Sand,
    Path,
    Snow,
    Gray(u8),
    Custom(u8, u8, u8),
    StructureDebug(u8, u8, u8),
}

impl BlockType {
    /// Red, green and blue of the block on a scale where 255 is full
    /// intensity. Snow is brighter than full intensity on purpose.
    pub open spec fn color(self) -> (u32, u32, u32) {
        match self {
            BlockType::Air => (0, 0, 0),
            BlockType::Stone => (150, 160, 155),
            BlockType::Grass(_) => (55, 195, 95),
            BlockType::Gray(value) => (value as u32, value as u32, value as u32),
            BlockType::Sand => (225, 195, 90),
            BlockType::Custom(r, g, b) => (r as u32, g as u32, b as u32),
            BlockType::StructureDebug(r, g, b) => (r as u32, g as u32, b as u32),
            BlockType::Path => (100, 65, 50),
            BlockType::Snow => (1275, 1275, 1275),
        }
    }

    /// The three channels laid over one another at bit offsets 16, 8 and 0.
    pub open spec fn packed_color(self) -> u32 {
        let (r, g, b) = self.color();
        (r << 16) | (g << 8) | b
    }

    pub fn get_color(&self) -> (c: (u32, u32, u32))
        ensures
            c == self.color(),
    {
        match self {
            BlockType::Air => (0, 0, 0),
            BlockType::Stone => (150, 160, 155),
            BlockType::Grass(_) => (55, 195, 95),
            BlockType::Gray(value) => (*value as u32, *value as u32, *value as u32),
            BlockType::Sand => (225, 195, 90),
            BlockType::Custom(r, g, b) => (*r as u32, *g as u32, *b as u32),
            BlockType::StructureDebug(r, g, b) => (*r as u32, *g as u32, *b as u32),
            BlockType::Path => (100, 65, 50),
            BlockType::Snow => (1275, 1275, 1275),
        }
    }

    /// Packs the colour into one word as the palette stores it.
    pub fn get_packed_color(&self) -> (c: u32)
        ensures
            c == self.packed_color(),
    {
        let (r, g, b) = self.get_color();
        (r << 16) | (g << 8) | b
    }
}

/// How many chunks are generated at the same time at most.
pub const MAX_RUNNING_TASKS: usize = 5;

/// How many root chunks lie along the edge of a country.
pub const ROOT_CHUNKS_PER_COUNTRY: i32 = 4;

/// Something the scheduler wants done.
#[derive(Clone, Copy, Debug, PartialEq, Eq, Structural)]
pub enum TaskAction {
    /// Generate what is known of a country.
    GenerateCountry(IVec2),
    /// Generate a chunk.
    StartChunk(ChunkTaskGenerator),
}

/// The country that a root chunk is counted to.
pub open spec fn country_of(parent_pos: IVec2) -> IVec2 {
    IVec2 {
        x: div_floor_spec(parent_pos.x as int, ROOT_CHUNKS_PER_COUNTRY as int) as i32,
        y: div_floor_spec(parent_pos.y as int, ROOT_CHUNKS_PER_COUNTRY as int) as i32,
    }
}

/// Finds the country that a root chunk is counted to.
pub fn get_country_of(parent_pos: IVec2) -> (country: IVec2)
    ensures
        country == country_of(parent_pos),
{
    IVec2 {
        x: div_floor(parent_pos.x, ROOT_CHUNKS_PER_COUNTRY),
        y: div_floor(parent_pos.y, ROOT_CHUNKS_PER_COUNTRY),
    }
}

/// The requests `sorted`, which are ordered from coarse to fine, with
/// `request` put in behind all that are as coarse as it or coarser.
pub open spec fn inserted_by_lod(sorted: Seq<ChunkTaskGenerator>, request: ChunkTaskGenerator) -> Seq<
    ChunkTaskGenerator,
>
    decreases sorted.len(),
{
    if sorted.len() == 0 {
        seq![request]
    } else if sorted.last().lod.level() >= request.lod.level() {
        sorted.push(request)
    } else {
        inserted_by_lod(sorted.drop_last(), request).push(sorted.last())
    }
}

/// The requests ordered from coarse to fine; requests of one level keep
/// the order they came in.
pub open spec fn sorted_by_lod(requests: Seq<ChunkTaskGenerator>) -> Seq<ChunkTaskGenerator>
    decreases requests.len(),
{
    if requests.len() == 0 {
        Seq::empty()
    } else {
        inserted_by_lod(sorted_by_lod(requests.drop_last()), requests.last())
    }
}

/// Putting a request in keeps the order from coarse to fine and adds
/// nothing but the request.
pub proof fn lemma_inserted_by_lod(sorted: Seq<ChunkTaskGenerator>, request: ChunkTaskGenerator)
    requires
        forall|i: int, j: int|
            0 <= i <= j < sorted.len() ==> sorted[i].lod.level() >= sorted[j].lod.level(),
    ensures
        inserted_by_lod(sorted, request).len() == sorted.len() + 1,
        forall|i: int, j: int|
            0 <= i <= j < sorted.len() + 1 ==> inserted_by_lod(sorted, request)[i].lod.level()
                >= inserted_by_lod(sorted, request)[j].lod.level(),
        inserted_by_lod(sorted, request).to_multiset() == sorted.to_multiset().insert(request),
        forall|i: int|
            0 <= i < sorted.len() + 1 ==> inserted_by_lod(sorted, request)[i] == request || sorted.contains(
                inserted_by_lod(sorted, request)[i],
            ),
    decreases sorted.len(),
{
    broadcast use vstd::seq_lib::group_to_multiset_ensures;

    let result = inserted_by_lod(sorted, request);
    if sorted.len() == 0 {
        assert(sorted =~= Seq::empty());
        assert(result =~= Seq::<ChunkTaskGenerator>::empty().push(request));
    } else if sorted.last().lod.level() >= request.lod.level() {
        assert forall|i: int| 0 <= i < sorted.len() + 1 implies result[i] == request || sorted.contains(
            result[i],
        ) by {
            if i < sorted.len() {
                assert(sorted[i] == result[i]);
            }
        }
    } else {
        let front = sorted.drop_last();
        lemma_inserted_by_lod(front, request);
        let inner = inserted_by_lod(front, request);
        assert(sorted =~= front.push(sorted.last()));
        assert forall|i: int, j: int| 0 <= i <= j < sorted.len() + 1 implies result[i].lod.level()
            >= result[j].lod.level() by {
            if j == sorted.len() {
                if i < sorted.len() {
                    if inner[i] != request {
                        assert(front.contains(inner[i]));
                        let k = choose|k: int| 0 <= k < front.len() && front[k] == inner[i];
                        assert(sorted[k] == inner[i]);
                    }
                }
            }
        }
        assert forall|i: int| 0 <= i < sorted.len() + 1 implies result[i] == request || sorted.contains(
            result[i],
        ) by {
            if i < sorted.len() {
                if inner[i] != request {
                    assert(front.contains(inner[i]));
                    let k = choose|k: int| 0 <= k < front.len() && front[k] == inner[i];
                    assert(sorted[k] == inner[i]);
                }
            } else {
                assert(sorted[sorted.len() - 1] == result[i]);
            }
        }
    }
}

/// Ordering requests from coarse to fine yields the same requests, each
/// as often as before, and none finer before one coarser.
pub proof fn lemma_sorted_by_lod(requests: Seq<ChunkTaskGenerator>)
    ensures
        sorted_by_lod(requests).len() == requests.len(),
        sorted_by_lod(requests).to_multiset() == requests.to_multiset(),
        forall|i: int, j: int|
            0 <= i <= j < requests.len() ==> sorted_by_lod(requests)[i].lod.level() >= sorted_by_lod(
                requests,
            )[j].lod.level(),
    decreases requests.len(),
{
    broadcast use vstd::seq_lib::group_to_multiset_ensures;

    if requests.len() == 0 {
        assert(requests =~= Seq::empty());
    } else {
        lemma_sorted_by_lod(requests.drop_last());
        lemma_inserted_by_lod(sorted_by_lod(requests.drop_last()), requests.last());
        assert(requests =~= requests.drop_last().push(requests.last()));
    }
}

/// Orders requests from coarse to fine, keeping the order within a level.
pub fn sort_by_lod(requests: &Vec<ChunkTaskGenerator>) -> (sorted: Vec<ChunkTaskGenerator>)
    ensures
        sorted@ == sorted_by_lod(requests@),
{
    let mut sorted: Vec<ChunkTaskGenerator> = Vec::new();
    let mut n: usize = 0;
    while n < requests.len()
        invariant
            n <= requests@.len(),
            sorted@ == sorted_by_lod(requests@.take(n as int)),
        decreases requests@.len() - n,
    {
        let request = requests[n];
        let level = request.lod.usize();
        let ghost before = sorted@;
        let mut at: usize = sorted.len();
        proof {
            assert(before.take(before.len() as int) =~= before);
            assert(before.skip(before.len() as int) =~= Seq::<ChunkTaskGenerator>::empty());
            assert(inserted_by_lod(before, request) + Seq::<ChunkTaskGenerator>::empty()
                =~= inserted_by_lod(before, request));
        }
        while at > 0 && sorted[at - 1].lod.usize() < level
            invariant
                at <= sorted@.len(),
                sorted@ == before,
                level == request.lod.level(),
                inserted_by_lod(before, request) == inserted_by_lod(before.take(at as int), request)
                    + before.skip(at as int),
            decreases at,
        {
            proof {
                let front = before.take(at as int);
                assert(front.drop_last() =~= before.take(at - 1));
                assert(inserted_by_lod(front, request) =~= inserted_by_lod(front.drop_last(), request).push(
                    front.last(),
                ));
                assert(inserted_by_lod(front.drop_last(), request).push(front.last()) + before.skip(
                    at as int,
                ) =~= inserted_by_lod(before.take(at - 1), request) + before.skip(at - 1));
            }
            at -= 1;
        }
        proof {
            assert(before.take(before.len() as int) =~= before);
            assert(before.skip(before.len() as int) =~= Seq::<ChunkTaskGenerator>::empty());
            let front = before.take(at as int);
            assert(inserted_by_lod(front, request) =~= front.push(request));
        }
        sorted.insert(at, request);
        proof {
            assert(sorted@ =~= before.take(at as int).push(request) + before.skip(at as int));
            assert(requests@.take(n + 1).drop_last() =~= requests@.take(n as int));
            assert(requests@.take(n + 1).last() == request);
        }
        n += 1;
    }
    proof {
        assert(requests@.take(requests@.len() as int) =~= requests@);
    }
    sorted
}

/// What the scheduler has decided so far.
pub ghost struct Schedule<T> {
    /// What is known of the countries.
    pub entries: Map<u64, GenerationState<T>>,
    /// What is to be done.
    pub actions: Seq<TaskAction>,
    /// How many chunks are to be started.
    pub added: nat,
}

/// What the scheduler decides about the first `n` of the requests
/// `requests` while `running` chunks are being generated.
///
/// Once the chunks being generated and those to be started reach the
/// limit, nothing more is decided. Before that, a request whose country is
/// not known yet has the country generated and waits; one whose country
/// is being generated waits; one whose country is there is started.
pub open spec fn scheduled<T>(
    entries: Map<u64, GenerationState<T>>,
    requests: Seq<ChunkTaskGenerator>,
    running: nat,
    n: int,
) -> Schedule<T>
    decreases n,
{
    if n <= 0 {
        Schedule { entries, actions: Seq::empty(), added: 0 }
    } else {
        let before = scheduled(entries, requests, running, n - 1);
        if running + before.added >= MAX_RUNNING_TASKS {
            before
        } else {
            let country = country_of(requests[n - 1].parent_pos);
            match claim_of(before.entries, country) {
                CacheClaim::Generate => Schedule {
                    entries: claimed(before.entries, country),
                    actions: before.actions.push(TaskAction::GenerateCountry(country)),
                    added: before.added,
                },
                CacheClaim::Wait => before,
                CacheClaim::Ready => Schedule {
                    entries: before.entries,
                    actions: before.actions.push(TaskAction::StartChunk(requests[n - 1])),
                    added: before.added + 1,
                },
            }
        }
    }
}

/// Decides which of the waiting requests are started now, coarser chunks
/// first, and which countries have to be generated before their chunks
/// can be. `chunk_task_count` chunks are being generated already.
pub fn start_chunk_tasks<T>(
    chunk_task_count: usize,
    generators: &Vec<ChunkTaskGenerator>,
    countries: &mut GenerationCache<T>,
) -> (actions: Vec<TaskAction>)
    ensures
        ({
            let plan = scheduled(
                old(countries).entries@,
                sorted_by_lod(generators@),
                chunk_task_count as nat,
                generators@.len() as int,
            );
            &&& actions@ == plan.actions
            &&& final(countries).entries@ == plan.entries
        }),
{
    let mut actions: Vec<TaskAction> = Vec::new();
    let sorted = sort_by_lod(generators);
    proof {
        lemma_sorted_by_lod(generators@);
    }
    let mut added: usize = 0;
    let mut n: usize = 0;
    while n < sorted.len()
        invariant
            n <= sorted@.len(),
            sorted@.len() == generators@.len(),
            added <= n,
            ({
                let plan = scheduled(old(countries).entries@, sorted@, chunk_task_count as nat, n as int);
                &&& actions@ == plan.actions
                &&& countries.entries@ == plan.entries
                &&& added == plan.added
            }),
        decreases sorted@.len() - n,
    {
        if chunk_task_count >= MAX_RUNNING_TASKS || added >= MAX_RUNNING_TASKS - chunk_task_count {
            n += 1;
            continue ;
        }
        let request = sorted[n];
        let country = get_country_of(request.parent_pos);
        match countries.begin(country) {
            CacheClaim::Generate => {
                actions.push(TaskAction::GenerateCountry(country));
            },
            CacheClaim::Wait => {},
            CacheClaim::Ready => {
                actions.push(TaskAction::StartChunk(request));
                added += 1;
            },
        }
        n += 1;
    }
    actions
}

} // verus!
