//! Greedy meshing: the faces between solid and air voxels of a chunk, merged
//! into axis-aligned rectangles.

use vstd::prelude::*;
use crate::utils::IVec3;
use crate::world_generation::chunk_generation::BlockType;
use crate::world_generation::chunk_generation::voxel_types::{in_grid, VoxelData};
use crate::world_generation::voxel_world::ChunkLod;

verus! {

/// One of the six directions a face can look in.
#[derive(Copy, Clone, Debug, PartialEq, Eq, Structural)]
pub enum Direction {
    X,
    NegX,
    Z,
    NegZ,
    Y,
    NegY,
}

impl Direction {
    /// The unit step in this direction.
    pub open spec fn offset(self) -> IVec3 {
        match self {
            Direction::X => IVec3 { x: 1, y: 0, z: 0 },
            Direction::NegX => IVec3 { x: -1i32, y: 0, z: 0 },
            Direction::Y => IVec3 { x: 0, y: 1, z: 0 },
            Direction::NegY => IVec3 { x: 0, y: -1i32, z: 0 },
            Direction::Z => IVec3 { x: 0, y: 0, z: 1 },
            Direction::NegZ => IVec3 { x: 0, y: 0, z: -1i32 },
        }
    }

    /// Whether the direction points along its axis rather than against it.
    pub open spec fn is_positive(self) -> bool {
        self == Direction::X || self == Direction::Y || self == Direction::Z
    }

    /// Position of the direction in the order the mesher works through them.
    pub open spec fn rank(self) -> int {
        match self {
            Direction::X => 0,
            Direction::NegX => 1,
            Direction::Z => 2,
            Direction::NegZ => 3,
            Direction::Y => 4,
            Direction::NegY => 5,
        }
    }

    pub fn get_offset(self) -> (v: IVec3)
        ensures
            v == self.offset(),
    {
        match self {
            Direction::X => IVec3 { x: 1, y: 0, z: 0 },
            Direction::NegX => IVec3 { x: -1, y: 0, z: 0 },
            Direction::Y => IVec3 { x: 0, y: 1, z: 0 },
            Direction::NegY => IVec3 { x: 0, y: -1, z: 0 },
            Direction::Z => IVec3 { x: 0, y: 0, z: 1 },
            Direction::NegZ => IVec3 { x: 0, y: 0, z: -1 },
        }
    }

    pub fn positive(self) -> (p: bool)
        ensures
            p == self.is_positive(),
    {
        match self {
            Direction::X => true,
            Direction::Y => true,
            Direction::Z => true,
            _ => false,
        }
    }
}

/// Reorders the components of `v` so that its first component runs along
/// the axis of `direction`.
pub open spec fn rotate(direction: Direction, v: IVec3) -> IVec3 {
    match direction {
        Direction::X | Direction::NegX => IVec3 { x: v.x, y: v.z, z: v.y },
        Direction::Y | Direction::NegY => IVec3 { x: v.y, y: v.x, z: v.z },
        Direction::Z | Direction::NegZ => IVec3 { x: v.z, y: v.y, z: v.x },
    }
}

pub fn rotate_into_direction(v: IVec3, direction: Direction) -> (r: IVec3)
    ensures
        r == rotate(direction, v),
{
    match direction {
        Direction::X => IVec3 { x: v.x, y: v.z, z: v.y },
        Direction::NegX => IVec3 { x: v.x, y: v.z, z: v.y },
        Direction::Y => IVec3 { x: v.y, y: v.x, z: v.z },
        Direction::NegY => IVec3 { x: v.y, y: v.x, z: v.z },
        Direction::Z => IVec3 { x: v.z, y: v.y, z: v.x },
        Direction::NegZ => IVec3 { x: v.z, y: v.y, z: v.x },
    }
}

/// Whether a coordinate lies inside the chunk proper, off the halo.
pub open spec fn in_chunk(v: int) -> bool {
    1 <= v <= 64
}

/// The voxel that sits in layer `layer` of `direction` at row `h` and column `w`.
pub open spec fn cell(direction: Direction, layer: int, h: int, w: int) -> IVec3 {
    rotate(direction, IVec3 { x: layer as i32, y: h as i32, z: w as i32 })
}

/// The voxel one step from `position` in `direction`.
pub open spec fn neighbour(position: IVec3, direction: Direction) -> IVec3 {
    IVec3 {
        x: (position.x + direction.offset().x) as i32,
        y: (position.y + direction.offset().y) as i32,
        z: (position.z + direction.offset().z) as i32,
    }
}

/// Whether the chunk has a visible face at the given cell: the voxel is
/// inside the chunk and solid, and the voxel it looks at is air.
pub open spec fn is_face(blocks: VoxelData, direction: Direction, layer: int, h: int, w: int) -> bool {
    &&& in_chunk(layer)
    &&& in_chunk(h)
    &&& in_chunk(w)
    &&& blocks.block_at(cell(direction, layer, h, w)) != BlockType::Air
    &&& blocks.block_at(neighbour(cell(direction, layer, h, w), direction)) == BlockType::Air
}

/// A rectangle of faces in one layer of one direction.
#[derive(Copy, Clone, Debug, PartialEq, Eq, Structural)]
pub struct Quad {
    pub direction: Direction,
    pub layer: i32,
    pub height_pos: i32,
    pub width_pos: i32,
    pub height: i32,
    pub width: i32,
}

impl Quad {
    /// Whether the rectangle contains the given cell.
    pub open spec fn covers(self, direction: Direction, layer: int, h: int, w: int) -> bool {
        &&& self.direction == direction
        &&& self.layer == layer
        &&& self.height_pos <= h < self.height_pos + self.height
        &&& self.width_pos <= w < self.width_pos + self.width
    }

    /// The rectangle is not empty and lies inside the chunk.
    pub open spec fn well_formed(self) -> bool {
        &&& in_chunk(self.layer as int)
        &&& 1 <= self.height_pos
        &&& 1 <= self.height
        &&& self.height_pos + self.height <= 65
        &&& 1 <= self.width_pos
        &&& 1 <= self.width
        &&& self.width_pos + self.width <= 65
    }

    /// Every cell of the rectangle is a visible face of `blocks`.
    pub open spec fn on_boundary(self, blocks: VoxelData) -> bool {
        forall|h: int, w: int| #[trigger]
            self.covers(self.direction, self.layer as int, h, w) ==> is_face(
                blocks,
                self.direction,
                self.layer as int,
                h,
                w,
            )
    }

    /// Whether two rectangles share a cell.
    pub open spec fn overlaps(self, other: Quad) -> bool {
        &&& self.direction == other.direction
        &&& self.layer == other.layer
        &&& self.height_pos < other.height_pos + other.height
        &&& other.height_pos < self.height_pos + self.height
        &&& self.width_pos < other.width_pos + other.width
        &&& other.width_pos < self.width_pos + self.width
    }
}

/// Whether some rectangle of `quads` with an index from `from` on contains the cell.
pub open spec fn covered_from(quads: Seq<Quad>, from: int, direction: Direction, layer: int, h: int, w: int) -> bool {
    exists|n: int| from <= n < quads.len() && #[trigger] quads[n].covers(direction, layer, h, w)
}

/// Whether some rectangle of `quads` contains the cell.
pub open spec fn covered(quads: Seq<Quad>, direction: Direction, layer: int, h: int, w: int) -> bool {
    covered_from(quads, 0, direction, layer, h, w)
}

/// Index of the cell at row `h`, column `w` in the per-layer bookkeeping.
pub open spec fn cell_index(h: int, w: int) -> int {
    (w - 1) * 64 + (h - 1)
}

/// The rectangles are exactly the boundary between solid and air: each lies
/// on visible faces only, no two share a face, and every visible face of the
/// chunk lies in one of them.
pub open spec fn mesh_closed(blocks: VoxelData, quads: Seq<Quad>) -> bool {
    &&& forall|n: int|
        0 <= n < quads.len() ==> (#[trigger] quads[n]).well_formed() && quads[n].on_boundary(blocks)
    &&& forall|n: int, m: int|
        0 <= n < quads.len() && 0 <= m < quads.len() && n != m ==> !(#[trigger] quads[n]).overlaps(
            #[trigger] quads[m],
        )
    &&& forall|direction: Direction, layer: int, h: int, w: int| #[trigger]
        is_face(blocks, direction, layer, h, w) ==> covered(quads, direction, layer, h, w)
}

/// Tests whether the chunk has a visible face at a cell of the chunk proper.
pub fn face_at(blocks: &VoxelData, direction: Direction, layer: i32, h: i32, w: i32) -> (face: bool)
    requires
        blocks.wf(),
        in_chunk(layer as int),
        in_chunk(h as int),
        in_chunk(w as int),
    ensures
        face == is_face(*blocks, direction, layer as int, h as int, w as int),
{
    let position = rotate_into_direction(IVec3 { x: layer, y: h, z: w }, direction);
    let step = direction.get_offset();
    let next = IVec3 { x: position.x + step.x, y: position.y + step.y, z: position.z + step.z };
    !blocks.is_air(position) && blocks.is_air(next)
}

/// Whether the cell lies in the rectangle that starts at row `j`, column `k`.
pub open spec fn in_rectangle(j: int, height: int, k: int, width: int, h: int, w: int) -> bool {
    j <= h < j + height && k <= w < k + width
}

/// The bookkeeping of one cell: it is marked exactly when a rectangle owns
/// it, and the owner is a rectangle of this layer that contains it.
spec fn owner_ok(
    direction: Direction,
    layer: int,
    base: int,
    quads: Seq<Quad>,
    done: Seq<bool>,
    owner: Seq<int>,
    h: int,
    w: int,
) -> bool {
    let c = cell_index(h, w);
    &&& done[c] == (owner[c] >= 0)
    &&& owner[c] >= 0 ==> base <= owner[c] < quads.len() && quads[owner[c]].covers(
        direction,
        layer,
        h,
        w,
    )
}

/// What holds between the rectangles found so far in one layer, the cells
/// marked as done and the rectangle that owns each marked cell.
spec fn layer_inv(
    blocks: VoxelData,
    direction: Direction,
    layer: int,
    base: int,
    quads: Seq<Quad>,
    done: Seq<bool>,
    owner: Seq<int>,
) -> bool {
    &&& done.len() == 4096
    &&& owner.len() == 4096
    &&& 0 <= base <= quads.len()
    &&& forall|h: int, w: int|
        in_chunk(h) && in_chunk(w) ==> #[trigger] owner_ok(
            direction,
            layer,
            base,
            quads,
            done,
            owner,
            h,
            w,
        )
    &&& forall|n: int|
        base <= n < quads.len() ==> (#[trigger] quads[n]).direction == direction && quads[n].layer
            == layer && quads[n].well_formed() && quads[n].on_boundary(blocks)
    &&& forall|n: int, h: int, w: int|
        base <= n < quads.len() && #[trigger] quads[n].covers(direction, layer, h, w)
            ==> owner[cell_index(h, w)] == n
}

/// Taking a rectangle of free faces keeps the bookkeeping of the layer intact.
proof fn lemma_add_quad(
    blocks: VoxelData,
    direction: Direction,
    layer: int,
    base: int,
    quads: Seq<Quad>,
    done: Seq<bool>,
    owner: Seq<int>,
    q: Quad,
    done_after: Seq<bool>,
) -> (owner_after: Seq<int>)
    requires
        layer_inv(blocks, direction, layer, base, quads, done, owner),
        q.direction == direction,
        q.layer == layer,
        q.well_formed(),
        forall|h: int, w: int|
            in_rectangle(q.height_pos as int, q.height as int, q.width_pos as int, q.width as int, h, w)
                ==> #[trigger] free_face(blocks, direction, layer, done, h, w),
        done_after.len() == 4096,
        forall|h: int, w: int|
            in_chunk(h) && in_chunk(w) ==> done_after[#[trigger] cell_index(h, w)] == (done[cell_index(
                h,
                w,
            )] || in_rectangle(
                q.height_pos as int,
                q.height as int,
                q.width_pos as int,
                q.width as int,
                h,
                w,
            )),
    ensures
        layer_inv(blocks, direction, layer, base, quads.push(q), done_after, owner_after),
{
    let n = quads.len() as int;
    let after = quads.push(q);
    let owner_after = Seq::new(
        4096,
        |c: int|
            if in_rectangle(
                q.height_pos as int,
                q.height as int,
                q.width_pos as int,
                q.width as int,
                c % 64 + 1,
                c / 64 + 1,
            ) {
                n
            } else {
                owner[c]
            },
    );
    assert forall|h: int, w: int| in_chunk(h) && in_chunk(w) implies #[trigger] owner_ok(
        direction,
        layer,
        base,
        after,
        done_after,
        owner_after,
        h,
        w,
    ) by {
        let c = cell_index(h, w);
        assert(c % 64 + 1 == h && c / 64 + 1 == w);
        assert(owner_ok(direction, layer, base, quads, done, owner, h, w));
        if in_rectangle(q.height_pos as int, q.height as int, q.width_pos as int, q.width as int, h, w) {
            assert(after[n] == q);
        } else {
            if owner[c] >= 0 {
                assert(after[owner[c]] == quads[owner[c]]);
            }
        }
    }
    assert forall|m: int| base <= m < after.len() implies (#[trigger] after[m]).direction == direction
        && after[m].layer == layer && after[m].well_formed() && after[m].on_boundary(blocks) by {
        if m < n {
            assert(after[m] == quads[m]);
        } else {
            assert(after[m] == q);
            assert forall|h: int, w: int| #[trigger]
                q.covers(q.direction, q.layer as int, h, w) implies is_face(
                blocks,
                q.direction,
                q.layer as int,
                h,
                w,
            ) by {
                assert(free_face(blocks, direction, layer, done, h, w));
            }
        }
    }
    assert forall|m: int, h: int, w: int|
        base <= m < after.len() && #[trigger] after[m].covers(
            direction,
            layer,
            h,
            w,
        ) implies owner_after[cell_index(h, w)] == m by {
        let c = cell_index(h, w);
        if m < n {
            assert(after[m] == quads[m]);
            assert(quads[m].covers(direction, layer, h, w));
            assert(quads[m].well_formed());
            assert(c % 64 + 1 == h && c / 64 + 1 == w);
            assert(owner[c] == m);
            assert(owner_ok(direction, layer, base, quads, done, owner, h, w));
            if in_rectangle(q.height_pos as int, q.height as int, q.width_pos as int, q.width as int, h, w) {
                assert(free_face(blocks, direction, layer, done, h, w));
            }
        } else {
            assert(after[m] == q);
            assert(c % 64 + 1 == h && c / 64 + 1 == w);
        }
    }
    owner_after
}

/// Whether the cell is a visible face that no rectangle has taken yet.
pub open spec fn free_face(
    blocks: VoxelData,
    direction: Direction,
    layer: int,
    done: Seq<bool>,
    h: int,
    w: int,
) -> bool {
    is_face(blocks, direction, layer, h, w) && !done[cell_index(h, w)]
}

/// Whether every cell of column `w` in rows `j` to `j + height - 1` is a
/// visible face that no rectangle has taken yet.
fn column_free(
    blocks: &VoxelData,
    direction: Direction,
    layer: i32,
    done: &Vec<bool>,
    j: i32,
    height: i32,
    w: i32,
) -> (free: bool)
    requires
        blocks.wf(),
        in_chunk(layer as int),
        in_chunk(w as int),
        1 <= j,
        1 <= height,
        j + height <= 65,
        done@.len() == 4096,
    ensures
        free == (forall|h: int|
            j <= h < j + height ==> #[trigger] free_face(
                *blocks,
                direction,
                layer as int,
                done@,
                h,
                w as int,
            )),
{
    let mut row: i32 = 0;
    while row < height
        invariant
            blocks.wf(),
            in_chunk(layer as int),
            in_chunk(w as int),
            1 <= j,
            0 <= row <= height,
            j + height <= 65,
            done@.len() == 4096,
            forall|h: int|
                j <= h < j + row ==> #[trigger] free_face(
                    *blocks,
                    direction,
                    layer as int,
                    done@,
                    h,
                    w as int,
                ),
        decreases height - row,
    {
        let index: usize = ((w - 1) * 64 + (j + row - 1)) as usize;
        assert(index == cell_index((j + row) as int, w as int));
        if done[index] || !face_at(blocks, direction, layer, j + row, w) {
            assert(!free_face(*blocks, direction, layer as int, done@, (j + row) as int, w as int));
            return false;
        }
        row += 1;
    }
    true
}

/// Marks every cell of a rectangle as done.
fn mark_rectangle(done: &mut Vec<bool>, j: i32, height: i32, k: i32, width: i32)
    requires
        old(done)@.len() == 4096,
        1 <= j,
        1 <= height,
        j + height <= 65,
        1 <= k,
        1 <= width,
        k + width <= 65,
    ensures
        final(done)@.len() == 4096,
        forall|h: int, w: int|
            in_chunk(h) && in_chunk(w) ==> final(done)@[#[trigger] cell_index(h, w)] == (old(done)@[cell_index(h, w)] || in_rectangle(j as int, height as int, k as int, width as int, h, w)),
{
    let mut x: i32 = k;
    while x < k + width
        invariant
            done@.len() == 4096,
            1 <= j,
            1 <= height,
            j + height <= 65,
            1 <= k <= x <= k + width,
            k + width <= 65,
            forall|h: int, w: int|
                in_chunk(h) && in_chunk(w) ==> done@[#[trigger] cell_index(h, w)] == (old(done)@[cell_index(h, w)] || in_rectangle(j as int, height as int, k as int, x - k, h, w)),
        decreases k + width - x,
    {
        let mut y: i32 = j;
        while y < j + height
            invariant
                done@.len() == 4096,
                1 <= j <= y <= j + height,
                j + height <= 65,
                1 <= k <= x < k + width,
                k + width <= 65,
                forall|h: int, w: int|
                    in_chunk(h) && in_chunk(w) ==> done@[#[trigger] cell_index(h, w)] == (old(done)@[cell_index(h, w)] || in_rectangle(j as int, height as int, k as int, x - k, h, w)
                        || (w == x && j <= h < y)),
            decreases j + height - y,
        {
            let index: usize = ((x - 1) * 64 + (y - 1)) as usize;
            let ghost before = done@;
            done.set(index, true);
            proof {
                assert(index == cell_index(y as int, x as int));
                assert forall|h: int, w: int| in_chunk(h) && in_chunk(w) implies done@[#[trigger] cell_index(
                    h,
                    w,
                )] == (old(done)@[cell_index(h, w)] || in_rectangle(
                    j as int,
                    height as int,
                    k as int,
                    x - k,
                    h,
                    w,
                ) || (w == x && j <= h < y + 1)) by {
                    if cell_index(h, w) == index as int {
                        assert(h == y && w == x);
                    } else {
                        assert(done@[cell_index(h, w)] == before[cell_index(h, w)]);
                    }
                }
            }
            y += 1;
        }
        x += 1;
    }
}

/// How many rows a rectangle that starts at row `j`, column `k` takes when
/// it has taken `height` already: it grows row by row while the next cell
/// of its first column is a free face.
pub open spec fn grown_height(
    blocks: VoxelData,
    direction: Direction,
    layer: int,
    done: Seq<bool>,
    j: int,
    k: int,
    height: int,
) -> int
    decreases 65 - height,
{
    if 1 <= height && 1 <= j && j + height <= 64 && free_face(
        blocks,
        direction,
        layer,
        done,
        j + height,
        k,
    ) {
        grown_height(blocks, direction, layer, done, j, k, height + 1)
    } else {
        height
    }
}

/// Whether all cells of column `w` in rows `j` to `j + height - 1` are free faces.
pub open spec fn column_is_free(
    blocks: VoxelData,
    direction: Direction,
    layer: int,
    done: Seq<bool>,
    j: int,
    height: int,
    w: int,
) -> bool {
    forall|h: int| j <= h < j + height ==> #[trigger] free_face(blocks, direction, layer, done, h, w)
}

/// How many columns a rectangle of `height` rows that starts at row `j`,
/// column `k` takes when it has taken `width` already: it grows column by
/// column while the next column is free over all its rows.
pub open spec fn grown_width(
    blocks: VoxelData,
    direction: Direction,
    layer: int,
    done: Seq<bool>,
    j: int,
    height: int,
    k: int,
    width: int,
) -> int
    decreases 65 - width,
{
    if 1 <= width && 1 <= k && k + width <= 64 && column_is_free(
        blocks,
        direction,
        layer,
        done,
        j,
        height,
        k + width,
    ) {
        grown_width(blocks, direction, layer, done, j, height, k, width + 1)
    } else {
        width
    }
}

/// The cells taken, after a rectangle has been taken as well.
pub open spec fn marked(done: Seq<bool>, j: int, height: int, k: int, width: int) -> Seq<bool> {
    Seq::new(4096, |c: int| done[c] || in_rectangle(j, height, k, width, c % 64 + 1, c / 64 + 1))
}

/// The rectangles found in a layer, and the cells they take.
pub ghost struct LayerScan {
    pub quads: Seq<Quad>,
    pub done: Seq<bool>,
}

/// What the scan of a layer has found when it has looked at the first `n`
/// cells, row by row. At each free face it takes the rectangle that grows
/// from there, first in height and then in width.
pub open spec fn layer_scan(blocks: VoxelData, direction: Direction, layer: int, n: int) -> LayerScan
    decreases n,
{
    if n <= 0 {
        LayerScan { quads: Seq::empty(), done: Seq::new(4096, |c: int| false) }
    } else {
        let before = layer_scan(blocks, direction, layer, n - 1);
        let j = (n - 1) / 64 + 1;
        let k = (n - 1) % 64 + 1;
        if free_face(blocks, direction, layer, before.done, j, k) {
            let height = grown_height(blocks, direction, layer, before.done, j, k, 1);
            let width = grown_width(blocks, direction, layer, before.done, j, height, k, 1);
            LayerScan {
                quads: before.quads.push(
                    Quad {
                        direction,
                        layer: layer as i32,
                        height_pos: j as i32,
                        width_pos: k as i32,
                        height: height as i32,
                        width: width as i32,
                    },
                ),
                done: marked(before.done, j, height, k, width),
            }
        } else {
            before
        }
    }
}

/// The rectangles of one layer of one direction, in the order they are found.
pub open spec fn layer_quads(blocks: VoxelData, direction: Direction, layer: int) -> Seq<Quad> {
    layer_scan(blocks, direction, layer, 4096).quads
}

/// The rectangles of the first `layers` layers of one direction.
pub open spec fn direction_quads(blocks: VoxelData, direction: Direction, layers: int) -> Seq<Quad>
    decreases layers,
{
    if layers <= 0 {
        Seq::empty()
    } else {
        direction_quads(blocks, direction, layers - 1) + layer_quads(blocks, direction, layers)
    }
}

/// The rectangles of a chunk's mesh: those of the six directions in turn,
/// each direction layer by layer.
pub open spec fn mesh_quads(blocks: VoxelData) -> Seq<Quad> {
    direction_quads(blocks, Direction::X, 64) + direction_quads(blocks, Direction::NegX, 64)
        + direction_quads(blocks, Direction::Z, 64) + direction_quads(blocks, Direction::NegZ, 64)
        + direction_quads(blocks, Direction::Y, 64) + direction_quads(blocks, Direction::NegY, 64)
}

/// The scan takes a rectangle at a free face: what it has found then.
proof fn lemma_scan_take(
    blocks: VoxelData,
    direction: Direction,
    layer: int,
    n: int,
    j: int,
    k: int,
    height: int,
    width: int,
    done_after: Seq<bool>,
)
    requires
        1 <= n <= 4096,
        j == (n - 1) / 64 + 1,
        k == (n - 1) % 64 + 1,
        free_face(blocks, direction, layer, layer_scan(blocks, direction, layer, n - 1).done, j, k),
        height == grown_height(
            blocks,
            direction,
            layer,
            layer_scan(blocks, direction, layer, n - 1).done,
            j,
            k,
            1,
        ),
        width == grown_width(
            blocks,
            direction,
            layer,
            layer_scan(blocks, direction, layer, n - 1).done,
            j,
            height,
            k,
            1,
        ),
        done_after.len() == 4096,
        forall|h: int, w: int|
            in_chunk(h) && in_chunk(w) ==> done_after[#[trigger] cell_index(h, w)] == (layer_scan(
                blocks,
                direction,
                layer,
                n - 1,
            ).done[cell_index(h, w)] || in_rectangle(j, height, k, width, h, w)),
    ensures
        layer_scan(blocks, direction, layer, n).done == done_after,
        layer_scan(blocks, direction, layer, n).quads == layer_scan(
            blocks,
            direction,
            layer,
            n - 1,
        ).quads.push(
            Quad {
                direction,
                layer: layer as i32,
                height_pos: j as i32,
                width_pos: k as i32,
                height: height as i32,
                width: width as i32,
            },
        ),
{
    let before = layer_scan(blocks, direction, layer, n - 1);
    let expected = marked(before.done, j, height, k, width);
    assert forall|c: int| 0 <= c < 4096 implies done_after[c] == expected[c] by {
        assert(c == cell_index(c % 64 + 1, c / 64 + 1));
    }
    assert(done_after =~= expected);
}

/// The scan passes a cell that is no free face: it has found no more than before.
proof fn lemma_scan_skip(blocks: VoxelData, direction: Direction, layer: int, n: int, j: int, k: int)
    requires
        1 <= n <= 4096,
        j == (n - 1) / 64 + 1,
        k == (n - 1) % 64 + 1,
        !free_face(blocks, direction, layer, layer_scan(blocks, direction, layer, n - 1).done, j, k),
    ensures
        layer_scan(blocks, direction, layer, n) == layer_scan(blocks, direction, layer, n - 1),
{
}

/// Finds the rectangles of one layer of one direction and appends them to `quads`.
///
/// The cells are visited row by row. At each visible face that no earlier
/// rectangle contains, a rectangle is grown first along the row direction and
/// then along the column direction as far as free faces reach.
#[verifier::rlimit(60)]
fn mesh_layer(blocks: &VoxelData, direction: Direction, layer: i32, quads: &mut Vec<Quad>)
    requires
        blocks.wf(),
        in_chunk(layer as int),
    ensures
        final(quads)@ == old(quads)@ + layer_quads(*blocks, direction, layer as int),
        old(quads)@.len() <= final(quads)@.len() <= old(quads)@.len() + 4096,
        final(quads)@.subrange(0, old(quads)@.len() as int) == old(quads)@,
        forall|n: int|
            old(quads)@.len() <= n < final(quads)@.len() ==> (#[trigger] final(quads)@[n]).direction
                == direction && final(quads)@[n].layer == layer && final(quads)@[n].well_formed()
                && final(quads)@[n].on_boundary(*blocks),
        forall|n: int, m: int|
            old(quads)@.len() <= n < final(quads)@.len() && old(quads)@.len() <= m < final(quads)@.len() && n != m ==> !(#[trigger] final(quads)@[n]).overlaps(#[trigger] final(quads)@[m]),
        forall|h: int, w: int| #[trigger]
            is_face(*blocks, direction, layer as int, h, w) ==> covered_from(
                final(quads)@,
                old(quads)@.len() as int,
                direction,
                layer as int,
                h,
                w,
            ),
{
    let base: usize = quads.len();
    let mut done: Vec<bool> = vec![false; 4096];
    let ghost mut owner: Seq<int> = Seq::new(4096, |c: int| -1int);
    let mut j: i32 = 1;
    while j <= 64
        invariant
            blocks.wf(),
            in_chunk(layer as int),
            1 <= j <= 65,
            base == old(quads)@.len(),
            quads@.len() <= base + (j - 1) * 64,
            quads@.subrange(0, base as int) == old(quads)@,
            quads@ == old(quads)@ + layer_scan(*blocks, direction, layer as int, (j - 1) * 64).quads,
            done@ == layer_scan(*blocks, direction, layer as int, (j - 1) * 64).done,
            layer_inv(*blocks, direction, layer as int, base as int, quads@, done@, owner),
            forall|h: int, w: int|
                in_chunk(h) && in_chunk(w) && h < j && #[trigger] is_face(
                    *blocks,
                    direction,
                    layer as int,
                    h,
                    w,
                ) ==> done@[cell_index(h, w)],
        decreases 65 - j,
    {
        let mut k: i32 = 1;
        while k <= 64
            invariant
                blocks.wf(),
                in_chunk(layer as int),
                1 <= j <= 64,
                1 <= k <= 65,
                base == old(quads)@.len(),
                quads@.len() <= base + (j - 1) * 64 + (k - 1),
                quads@.subrange(0, base as int) == old(quads)@,
                quads@ == old(quads)@ + layer_scan(
                    *blocks,
                    direction,
                    layer as int,
                    (j - 1) * 64 + (k - 1),
                ).quads,
                done@ == layer_scan(*blocks, direction, layer as int, (j - 1) * 64 + (k - 1)).done,
                layer_inv(*blocks, direction, layer as int, base as int, quads@, done@, owner),
                forall|h: int, w: int|
                    in_chunk(h) && in_chunk(w) && (h < j || (h == j && w < k)) && #[trigger] is_face(
                        *blocks,
                        direction,
                        layer as int,
                        h,
                        w,
                    ) ==> done@[cell_index(h, w)],
            decreases 65 - k,
        {
            let index: usize = ((k - 1) * 64 + (j - 1)) as usize;
            assert(index == cell_index(j as int, k as int));
            let ghost n = (j - 1) * 64 + (k - 1) + 1;
            let ghost scan_before = layer_scan(*blocks, direction, layer as int, n - 1);
            proof {
                assert((n - 1) / 64 + 1 == j && (n - 1) % 64 + 1 == k);
            }
            if !done[index] && face_at(blocks, direction, layer, j, k) {
                let mut height: i32 = 1;
                while j + height <= 64 && !done[((k - 1) * 64 + (j + height - 1)) as usize] && face_at(
                    blocks,
                    direction,
                    layer,
                    j + height,
                    k,
                )
                    invariant
                        blocks.wf(),
                        in_chunk(layer as int),
                        1 <= j <= 64,
                        1 <= k <= 64,
                        1 <= height,
                        j + height <= 65,
                        done@.len() == 4096,
                        forall|h: int|
                            j <= h < j + height ==> #[trigger] free_face(
                                *blocks,
                                direction,
                                layer as int,
                                done@,
                                h,
                                k as int,
                            ),
                        grown_height(*blocks, direction, layer as int, done@, j as int, k as int, 1)
                            == grown_height(
                            *blocks,
                            direction,
                            layer as int,
                            done@,
                            j as int,
                            k as int,
                            height as int,
                        ),
                    decreases 65 - height,
                {
                    assert(((k - 1) * 64 + (j + height - 1)) == cell_index((j + height) as int, k as int));
                    height += 1;
                }
                proof {
                    if j + height <= 64 {
                        assert(((k - 1) * 64 + (j + height - 1)) == cell_index((j + height) as int, k as int));
                    }
                    assert(grown_height(*blocks, direction, layer as int, done@, j as int, k as int, 1)
                        == height);
                }
                let mut width: i32 = 1;
                while k + width <= 64 && column_free(blocks, direction, layer, &done, j, height, k + width)
                    invariant
                        blocks.wf(),
                        in_chunk(layer as int),
                        1 <= j <= 64,
                        1 <= k <= 64,
                        1 <= height,
                        j + height <= 65,
                        1 <= width,
                        k + width <= 65,
                        done@.len() == 4096,
                        forall|h: int, w: int|
                            in_rectangle(j as int, height as int, k as int, width as int, h, w)
                                ==> #[trigger] free_face(
                                *blocks,
                                direction,
                                layer as int,
                                done@,
                                h,
                                w,
                            ),
                        grown_width(
                            *blocks,
                            direction,
                            layer as int,
                            done@,
                            j as int,
                            height as int,
                            k as int,
                            1,
                        ) == grown_width(
                            *blocks,
                            direction,
                            layer as int,
                            done@,
                            j as int,
                            height as int,
                            k as int,
                            width as int,
                        ),
                    decreases 65 - width,
                {
                    width += 1;
                }
                proof {
                    assert(grown_width(
                        *blocks,
                        direction,
                        layer as int,
                        done@,
                        j as int,
                        height as int,
                        k as int,
                        1,
                    ) == width);
                }
                let ghost done_before = done@;
                let ghost quads_before = quads@;
                mark_rectangle(&mut done, j, height, k, width);
                let quad = Quad { direction, layer, height_pos: j, width_pos: k, height, width };
                quads.push(quad);
                proof {
                    owner =
                    lemma_add_quad(
                        *blocks,
                        direction,
                        layer as int,
                        base as int,
                        quads_before,
                        done_before,
                        owner,
                        quad,
                        done@,
                    );
                    assert(quads@.subrange(0, base as int) =~= quads_before.subrange(0, base as int));
                    assert(in_rectangle(j as int, height as int, k as int, width as int, j as int, k as int));
                    lemma_scan_take(
                        *blocks,
                        direction,
                        layer as int,
                        n,
                        j as int,
                        k as int,
                        height as int,
                        width as int,
                        done@,
                    );
                    assert(quads@ =~= old(quads)@ + layer_scan(*blocks, direction, layer as int, n).quads);
                }
            } else {
                proof {
                    lemma_scan_skip(*blocks, direction, layer as int, n, j as int, k as int);
                }
            }
            proof {
                assert forall|h: int, w: int|
                    in_chunk(h) && in_chunk(w) && (h < j || (h == j && w < k + 1)) && #[trigger] is_face(
                        *blocks,
                        direction,
                        layer as int,
                        h,
                        w,
                    ) implies done@[cell_index(h, w)] by {}
            }
            k += 1;
        }
        j += 1;
    }
    proof {
        assert(quads@ == old(quads)@ + layer_quads(*blocks, direction, layer as int));
        let result = quads@;
        assert forall|h: int, w: int| #[trigger]
            is_face(*blocks, direction, layer as int, h, w) implies covered_from(
            result,
            base as int,
            direction,
            layer as int,
            h,
            w,
        ) by {
            assert(owner_ok(direction, layer as int, base as int, result, done@, owner, h, w));
            let n = owner[cell_index(h, w)];
            assert(result[n].covers(direction, layer as int, h, w));
        }
        assert forall|n: int, m: int|
            base <= n < result.len() && base <= m < result.len() && n != m implies !(
        #[trigger] result[n]).overlaps(#[trigger] result[m]) by {
            let a = result[n];
            let b = result[m];
            if a.overlaps(b) {
                let h = if a.height_pos >= b.height_pos {
                    a.height_pos as int
                } else {
                    b.height_pos as int
                };
                let w = if a.width_pos >= b.width_pos {
                    a.width_pos as int
                } else {
                    b.width_pos as int
                };
                assert(a.covers(direction, layer as int, h, w));
                assert(b.covers(direction, layer as int, h, w));
            }
        }
    }
}

/// Whether the layer `layer` of `direction` comes before layer `limit` of the
/// direction with rank `rank` in the order the mesher works in.
spec fn processed(direction: Direction, layer: int, rank: int, limit: int) -> bool {
    direction.rank() < rank || (direction.rank() == rank && layer < limit)
}

/// The rectangles found so far are exactly the boundary within the layers
/// that have been worked through.
spec fn partly_closed(blocks: VoxelData, quads: Seq<Quad>, rank: int, limit: int) -> bool {
    &&& forall|n: int|
        0 <= n < quads.len() ==> (#[trigger] quads[n]).well_formed() && quads[n].on_boundary(blocks)
            && processed(quads[n].direction, quads[n].layer as int, rank, limit)
    &&& forall|n: int, m: int|
        0 <= n < quads.len() && 0 <= m < quads.len() && n != m ==> !(#[trigger] quads[n]).overlaps(
            #[trigger] quads[m],
        )
    &&& forall|direction: Direction, layer: int, h: int, w: int|
        processed(direction, layer, rank, limit) && #[trigger] is_face(
            blocks,
            direction,
            layer,
            h,
            w,
        ) ==> covered(quads, direction, layer, h, w)
}

/// Appending the rectangles of the next layer keeps the partial result exact.
proof fn lemma_layer_appended(
    blocks: VoxelData,
    direction: Direction,
    layer: int,
    before: Seq<Quad>,
    after: Seq<Quad>,
)
    requires
        in_chunk(layer),
        partly_closed(blocks, before, direction.rank(), layer),
        before.len() <= after.len(),
        after.subrange(0, before.len() as int) == before,
        forall|n: int|
            before.len() <= n < after.len() ==> (#[trigger] after[n]).direction == direction
                && after[n].layer == layer && after[n].well_formed() && after[n].on_boundary(blocks),
        forall|n: int, m: int|
            before.len() <= n < after.len() && before.len() <= m < after.len() && n != m ==> !(
            #[trigger] after[n]).overlaps(#[trigger] after[m]),
        forall|h: int, w: int| #[trigger]
            is_face(blocks, direction, layer, h, w) ==> covered_from(
                after,
                before.len() as int,
                direction,
                layer,
                h,
                w,
            ),
    ensures
        partly_closed(blocks, after, direction.rank(), layer + 1),
{
    let rank = direction.rank();
    assert forall|n: int| 0 <= n < before.len() implies after[n] == before[n] by {
        assert(after.subrange(0, before.len() as int)[n] == after[n]);
    }
    assert forall|n: int| 0 <= n < after.len() implies (#[trigger] after[n]).well_formed()
        && after[n].on_boundary(blocks) && processed(
        after[n].direction,
        after[n].layer as int,
        rank,
        layer + 1,
    ) by {
        if n < before.len() {
            assert(after[n] == before[n]);
        }
    }
    assert forall|n: int, m: int|
        0 <= n < after.len() && 0 <= m < after.len() && n != m implies !(#[trigger] after[n]).overlaps(
        #[trigger] after[m],
    ) by {
        if n < before.len() {
            assert(after[n] == before[n]);
        }
        if m < before.len() {
            assert(after[m] == before[m]);
        }
    }
    assert forall|d: Direction, l: int, h: int, w: int|
        processed(d, l, rank, layer + 1) && #[trigger] is_face(blocks, d, l, h, w) implies covered(
        after,
        d,
        l,
        h,
        w,
    ) by {
        if d == direction && l == layer {
            assert(covered_from(after, before.len() as int, direction, layer, h, w));
            let n = choose|n: int|
                before.len() <= n < after.len() && #[trigger] after[n].covers(direction, layer, h, w);
            assert(after[n].covers(d, l, h, w));
        } else {
            assert(processed(d, l, rank, layer));
            assert(covered(before, d, l, h, w));
            let n = choose|n: int| 0 <= n < before.len() && #[trigger] before[n].covers(d, l, h, w);
            assert(after[n] == before[n]);
            assert(after[n].covers(d, l, h, w));
        }
    }
}

/// Finds the rectangles of all 64 layers of one direction.
fn mesh_sides(blocks: &VoxelData, direction: Direction, quads: &mut Vec<Quad>)
    requires
        blocks.wf(),
        partly_closed(*blocks, old(quads)@, direction.rank(), 1),
    ensures
        partly_closed(*blocks, final(quads)@, direction.rank() + 1, 1),
        final(quads)@ == old(quads)@ + direction_quads(*blocks, direction, 64),
        final(quads)@.len() <= old(quads)@.len() + 64 * 4096,
{
    let mut i: i32 = 1;
    while i <= 64
        invariant
            blocks.wf(),
            1 <= i <= 65,
            partly_closed(*blocks, quads@, direction.rank(), i as int),
            quads@ == old(quads)@ + direction_quads(*blocks, direction, i - 1),
            quads@.len() <= old(quads)@.len() + (i - 1) * 4096,
        decreases 65 - i,
    {
        let ghost before = quads@;
        mesh_layer(blocks, direction, i, quads);
        proof {
            lemma_layer_appended(*blocks, direction, i as int, before, quads@);
            assert(quads@ =~= old(quads)@ + direction_quads(*blocks, direction, i as int));
        }
        i += 1;
    }
    proof {
        let result = quads@;
        let rank = direction.rank();
        assert forall|d: Direction, l: int, h: int, w: int|
            processed(d, l, rank + 1, 1) && #[trigger] is_face(*blocks, d, l, h, w) implies covered(
            result,
            d,
            l,
            h,
            w,
        ) by {
            assert(processed(d, l, rank, 65));
        }
    }
}

/// Three vertex numbers that make one triangle.
#[derive(Copy, Clone, Debug, PartialEq, Eq, Structural)]
pub struct Triangle {
    pub a: u32,
    pub b: u32,
    pub c: u32,
}

/// One of the four corners of a rectangle, in half-voxel units of the
/// chunk's own grid. Corner 0 is the corner at the rectangle's first cell;
/// the corners go round the rectangle along the column direction first.
pub open spec fn quad_corner(q: Quad, corner: int) -> IVec3 {
    let anchor = cell(q.direction, q.layer as int, q.height_pos as int, q.width_pos as int);
    let shift = if q.direction.is_positive() {
        IVec3 { x: 0, y: 0, z: 0 }
    } else {
        q.direction.offset()
    };
    let up: int = if corner == 2 || corner == 3 {
        2 * q.height - 1
    } else {
        -1
    };
    let across: int = if corner == 1 || corner == 2 {
        2 * q.width - 1
    } else {
        -1
    };
    let local = rotate(q.direction, IVec3 { x: 1, y: up as i32, z: across as i32 });
    IVec3 {
        x: (2 * anchor.x + local.x + 2 * shift.x) as i32,
        y: (2 * anchor.y + local.y + 2 * shift.y) as i32,
        z: (2 * anchor.z + local.z + 2 * shift.z) as i32,
    }
}

/// The two triangles of a rectangle whose corners are numbered from `first`.
/// Faces that look along their axis and faces that look against it are
/// wound in opposite senses.
pub open spec fn quad_triangles(q: Quad, first: int) -> (Triangle, Triangle) {
    if q.direction.is_positive() {
        (
            Triangle { a: first as u32, b: (first + 1) as u32, c: (first + 3) as u32 },
            Triangle { a: (first + 1) as u32, b: (first + 2) as u32, c: (first + 3) as u32 },
        )
    } else {
        (
            Triangle { a: first as u32, b: (first + 3) as u32, c: (first + 1) as u32 },
            Triangle { a: (first + 1) as u32, b: (first + 3) as u32, c: (first + 2) as u32 },
        )
    }
}

/// The mesh of one chunk: its rectangles and the vertices, normals and
/// triangles that draw them. Positions are in half-voxel units of the chunk's
/// own grid; scaling to the world is left to whoever draws the mesh.
pub struct ChunkMesh {
    pub quads: Vec<Quad>,
    pub positions: Vec<IVec3>,
    pub normals: Vec<IVec3>,
    pub triangles: Vec<Triangle>,
    pub has_collider: bool,
}

impl ChunkMesh {
    /// Vertices, normals and triangles are those of the rectangles, four
    /// vertices and two triangles for each, in the rectangles' order.
    pub open spec fn geometry_matches(self) -> bool {
        &&& self.positions@.len() == 4 * self.quads@.len()
        &&& self.normals@.len() == 4 * self.quads@.len()
        &&& self.triangles@.len() == 2 * self.quads@.len()
        &&& forall|n: int, corner: int|
            0 <= n < self.quads@.len() && 0 <= corner < 4 ==> #[trigger] self.positions@[4 * n
                + corner] == quad_corner(self.quads@[n], corner)
        &&& forall|n: int, corner: int|
            0 <= n < self.quads@.len() && 0 <= corner < 4 ==> #[trigger] self.normals@[4 * n + corner]
                == self.quads@[n].direction.offset()
        &&& forall|n: int|
            0 <= n < self.quads@.len() ==> #[trigger] self.triangles@[2 * n] == quad_triangles(
                self.quads@[n],
                4 * n,
            ).0
        &&& forall|n: int|
            0 <= n < self.quads@.len() ==> #[trigger] self.triangles@[2 * n + 1] == quad_triangles(
                self.quads@[n],
                4 * n,
            ).1
    }
}

/// Computes one corner of a rectangle.
fn corner_of(q: &Quad, corner: u8) -> (position: IVec3)
    requires
        q.well_formed(),
        corner < 4,
    ensures
        position == quad_corner(*q, corner as int),
{
    let anchor = rotate_into_direction(
        IVec3 { x: q.layer, y: q.height_pos, z: q.width_pos },
        q.direction,
    );
    let shift = if q.direction.positive() {
        IVec3 { x: 0, y: 0, z: 0 }
    } else {
        q.direction.get_offset()
    };
    let up: i32 = if corner == 2 || corner == 3 {
        2 * q.height - 1
    } else {
        -1
    };
    let across: i32 = if corner == 1 || corner == 2 {
        2 * q.width - 1
    } else {
        -1
    };
    let local = rotate_into_direction(IVec3 { x: 1, y: up, z: across }, q.direction);
    IVec3 {
        x: 2 * anchor.x + local.x + 2 * shift.x,
        y: 2 * anchor.y + local.y + 2 * shift.y,
        z: 2 * anchor.z + local.z + 2 * shift.z,
    }
}

/// Meshes a chunk: finds the rectangles that cover the boundary between its
/// solid voxels and the air, and lays out their vertices and triangles.
/// A chunk without any visible face has no mesh. Only a chunk at full detail
/// takes part in collisions.
pub fn generate_mesh(blocks: &VoxelData, chunk_lod: ChunkLod) -> (mesh: Option<ChunkMesh>)
    requires
        blocks.wf(),
    ensures
        mesh.is_none() <==> (forall|direction: Direction, layer: int, h: int, w: int|
            !#[trigger] is_face(*blocks, direction, layer, h, w)),
        mesh.is_none() <==> mesh_quads(*blocks).len() == 0,
        is_mesh_of(mesh, *blocks, chunk_lod),
        mesh matches Some(m) ==> {
            &&& m.quads@ == mesh_quads(*blocks)
            &&& m.quads@.len() >= 1
            &&& mesh_closed(*blocks, m.quads@)
            &&& m.geometry_matches()
            &&& m.has_collider == (chunk_lod == ChunkLod::Full)
        },
{
    let mut quads: Vec<Quad> = Vec::new();
    mesh_sides(blocks, Direction::X, &mut quads);
    mesh_sides(blocks, Direction::NegX, &mut quads);
    mesh_sides(blocks, Direction::Z, &mut quads);
    mesh_sides(blocks, Direction::NegZ, &mut quads);
    mesh_sides(blocks, Direction::Y, &mut quads);
    mesh_sides(blocks, Direction::NegY, &mut quads);
    proof {
        assert(quads@ =~= mesh_quads(*blocks));
        assert forall|direction: Direction, layer: int, h: int, w: int| #[trigger]
            is_face(*blocks, direction, layer, h, w) implies covered(quads@, direction, layer, h, w) by {
            assert(processed(direction, layer, 6, 1));
        }
    }
    if quads.len() == 0 {
        proof {
            assert forall|direction: Direction, layer: int, h: int, w: int|
                !#[trigger] is_face(*blocks, direction, layer, h, w) by {
                if is_face(*blocks, direction, layer, h, w) {
                    assert(covered(quads@, direction, layer, h, w));
                }
            }
        }
        return None;
    }
    proof {
        let q = quads@[0];
        assert(q.well_formed() && q.on_boundary(*blocks));
        assert(q.covers(q.direction, q.layer as int, q.height_pos as int, q.width_pos as int));
        assert(is_face(*blocks, q.direction, q.layer as int, q.height_pos as int, q.width_pos as int));
    }
    let mut positions: Vec<IVec3> = Vec::new();
    let mut normals: Vec<IVec3> = Vec::new();
    let mut triangles: Vec<Triangle> = Vec::new();
    let count: usize = quads.len();
    let mut n: usize = 0;
    while n < count
        invariant
            count == quads@.len(),
            count <= 6 * 64 * 4096,
            n <= count,
            forall|i: int| 0 <= i < quads@.len() ==> (#[trigger] quads@[i]).well_formed(),
            positions@.len() == 4 * n,
            normals@.len() == 4 * n,
            triangles@.len() == 2 * n,
            forall|i: int, corner: int|
                0 <= i < n && 0 <= corner < 4 ==> #[trigger] positions@[4 * i + corner] == quad_corner(
                    quads@[i],
                    corner,
                ),
            forall|i: int, corner: int|
                0 <= i < n && 0 <= corner < 4 ==> #[trigger] normals@[4 * i + corner]
                    == quads@[i].direction.offset(),
            forall|i: int|
                0 <= i < n ==> #[trigger] triangles@[2 * i] == quad_triangles(quads@[i], 4 * i).0,
            forall|i: int|
                0 <= i < n ==> #[trigger] triangles@[2 * i + 1] == quad_triangles(quads@[i], 4 * i).1,
        decreases count - n,
    {
        let quad = quads[n];
        let first: u32 = (4 * n) as u32;
        let normal = quad.direction.get_offset();
        let ghost positions_before = positions@;
        let ghost normals_before = normals@;
        let ghost triangles_before = triangles@;
        positions.push(corner_of(&quad, 0));
        positions.push(corner_of(&quad, 1));
        positions.push(corner_of(&quad, 2));
        positions.push(corner_of(&quad, 3));
        normals.push(normal);
        normals.push(normal);
        normals.push(normal);
        normals.push(normal);
        if quad.direction.positive() {
            triangles.push(Triangle { a: first, b: first + 1, c: first + 3 });
            triangles.push(Triangle { a: first + 1, b: first + 2, c: first + 3 });
        } else {
            triangles.push(Triangle { a: first, b: first + 3, c: first + 1 });
            triangles.push(Triangle { a: first + 1, b: first + 3, c: first + 2 });
        }
        proof {
            assert forall|i: int, corner: int| 0 <= i < n + 1 && 0 <= corner < 4 implies #[trigger] positions@[4
                * i + corner] == quad_corner(quads@[i], corner) by {
                if i < n {
                    assert(positions@[4 * i + corner] == positions_before[4 * i + corner]);
                }
            }
            assert forall|i: int, corner: int| 0 <= i < n + 1 && 0 <= corner < 4 implies #[trigger] normals@[4
                * i + corner] == quads@[i].direction.offset() by {
                if i < n {
                    assert(normals@[4 * i + corner] == normals_before[4 * i + corner]);
                }
            }
            assert forall|i: int| 0 <= i < n + 1 implies #[trigger] triangles@[2 * i] == quad_triangles(
                quads@[i],
                4 * i,
            ).0 by {
                if i < n {
                    assert(triangles@[2 * i] == triangles_before[2 * i]);
                }
            }
            assert forall|i: int| 0 <= i < n + 1 implies #[trigger] triangles@[2 * i + 1]
                == quad_triangles(quads@[i], 4 * i).1 by {
                if i < n {
                    assert(triangles@[2 * i + 1] == triangles_before[2 * i + 1]);
                }
            }
        }
        n += 1;
    }
    let has_collider = chunk_lod == ChunkLod::Full;
    Some(ChunkMesh { quads, positions, normals, triangles, has_collider })
}

/// Whether two grids are solid at the same places.
pub open spec fn same_shape(a: VoxelData, b: VoxelData) -> bool {
    forall|p: IVec3|
        in_grid(p) ==> (#[trigger] a.block_at(p) == BlockType::Air) == (b.block_at(p) == BlockType::Air)
}

/// Grids that are solid at the same places have the same visible faces.
pub proof fn lemma_same_faces(a: VoxelData, b: VoxelData, direction: Direction, layer: int, h: int, w: int)
    requires
        same_shape(a, b),
    ensures
        is_face(a, direction, layer, h, w) == is_face(b, direction, layer, h, w),
{
    if in_chunk(layer) && in_chunk(h) && in_chunk(w) {
        let here = cell(direction, layer, h, w);
        let there = neighbour(here, direction);
        assert(in_grid(here));
        assert(in_grid(there));
        assert((a.block_at(here) == BlockType::Air) == (b.block_at(here) == BlockType::Air));
        assert((a.block_at(there) == BlockType::Air) == (b.block_at(there) == BlockType::Air));
    }
}

proof fn lemma_same_height(
    a: VoxelData,
    b: VoxelData,
    direction: Direction,
    layer: int,
    done: Seq<bool>,
    j: int,
    k: int,
    height: int,
)
    requires
        same_shape(a, b),
    ensures
        grown_height(a, direction, layer, done, j, k, height) == grown_height(
            b,
            direction,
            layer,
            done,
            j,
            k,
            height,
        ),
    decreases 65 - height,
{
    lemma_same_faces(a, b, direction, layer, j + height, k);
    if 1 <= height && 1 <= j && j + height <= 64 && free_face(a, direction, layer, done, j + height, k) {
        lemma_same_height(a, b, direction, layer, done, j, k, height + 1);
    }
}

proof fn lemma_same_width(
    a: VoxelData,
    b: VoxelData,
    direction: Direction,
    layer: int,
    done: Seq<bool>,
    j: int,
    height: int,
    k: int,
    width: int,
)
    requires
        same_shape(a, b),
    ensures
        grown_width(a, direction, layer, done, j, height, k, width) == grown_width(
            b,
            direction,
            layer,
            done,
            j,
            height,
            k,
            width,
        ),
    decreases 65 - width,
{
    if column_is_free(a, direction, layer, done, j, height, k + width) {
        assert forall|h: int| j <= h < j + height implies #[trigger] free_face(
            b,
            direction,
            layer,
            done,
            h,
            k + width,
        ) by {
            lemma_same_faces(a, b, direction, layer, h, k + width);
            assert(free_face(a, direction, layer, done, h, k + width));
        }
    }
    if column_is_free(b, direction, layer, done, j, height, k + width) {
        assert forall|h: int| j <= h < j + height implies #[trigger] free_face(
            a,
            direction,
            layer,
            done,
            h,
            k + width,
        ) by {
            lemma_same_faces(a, b, direction, layer, h, k + width);
            assert(free_face(b, direction, layer, done, h, k + width));
        }
    }
    if 1 <= width && 1 <= k && k + width <= 64 && column_is_free(
        a,
        direction,
        layer,
        done,
        j,
        height,
        k + width,
    ) {
        lemma_same_width(a, b, direction, layer, done, j, height, k, width + 1);
    }
}

proof fn lemma_same_scan(a: VoxelData, b: VoxelData, direction: Direction, layer: int, n: int)
    requires
        same_shape(a, b),
    ensures
        layer_scan(a, direction, layer, n) == layer_scan(b, direction, layer, n),
    decreases n,
{
    if n > 0 {
        lemma_same_scan(a, b, direction, layer, n - 1);
        let before = layer_scan(a, direction, layer, n - 1);
        let j = (n - 1) / 64 + 1;
        let k = (n - 1) % 64 + 1;
        lemma_same_faces(a, b, direction, layer, j, k);
        lemma_same_height(a, b, direction, layer, before.done, j, k, 1);
        let height = grown_height(a, direction, layer, before.done, j, k, 1);
        lemma_same_width(a, b, direction, layer, before.done, j, height, k, 1);
    }
}

proof fn lemma_same_direction(a: VoxelData, b: VoxelData, direction: Direction, layers: int)
    requires
        same_shape(a, b),
    ensures
        direction_quads(a, direction, layers) == direction_quads(b, direction, layers),
    decreases layers,
{
    if layers > 0 {
        lemma_same_direction(a, b, direction, layers - 1);
        lemma_same_scan(a, b, direction, layers, 4096);
    }
}

/// The mesh depends on nothing but the shape of the solid: grids that are
/// solid at the same places have the same rectangles, whatever their
/// blocks are made of and however their palettes are laid out.
pub proof fn lemma_mesh_depends_on_shape(a: VoxelData, b: VoxelData)
    requires
        same_shape(a, b),
    ensures
        mesh_quads(a) == mesh_quads(b),
{
    lemma_same_direction(a, b, Direction::X, 64);
    lemma_same_direction(a, b, Direction::NegX, 64);
    lemma_same_direction(a, b, Direction::Z, 64);
    lemma_same_direction(a, b, Direction::NegZ, 64);
    lemma_same_direction(a, b, Direction::Y, 64);
    lemma_same_direction(a, b, Direction::NegY, 64);
}

/// Whether `mesh` is what meshing `blocks` at the level `chunk_lod` yields.
pub open spec fn is_mesh_of(mesh: Option<ChunkMesh>, blocks: VoxelData, chunk_lod: ChunkLod) -> bool {
    &&& mesh.is_none() <==> mesh_quads(blocks).len() == 0
    &&& mesh matches Some(m) ==> {
        &&& m.quads@ == mesh_quads(blocks)
        &&& m.geometry_matches()
        &&& m.has_collider == (chunk_lod == ChunkLod::Full)
    }
}

/// Meshing is repeatable: two meshes of grids of the same shape at the
/// same level have the same rectangles, vertices, normals and triangles.
pub proof fn lemma_mesh_is_deterministic(
    first: Option<ChunkMesh>,
    second: Option<ChunkMesh>,
    a: VoxelData,
    b: VoxelData,
    chunk_lod: ChunkLod,
)
    requires
        same_shape(a, b),
        is_mesh_of(first, a, chunk_lod),
        is_mesh_of(second, b, chunk_lod),
    ensures
        first.is_none() == second.is_none(),
        first.is_some() ==> {
            let m = first.unwrap();
            let n = second.unwrap();
            &&& m.quads@ == n.quads@
            &&& m.positions@ == n.positions@
            &&& m.normals@ == n.normals@
            &&& m.triangles@ == n.triangles@
            &&& m.has_collider == n.has_collider
        },
{
    lemma_mesh_depends_on_shape(a, b);
    if first.is_some() {
        let m = first.unwrap();
        let n = second.unwrap();
        assert forall|i: int| 0 <= i < m.positions@.len() implies m.positions@[i] == n.positions@[i] by {
            let q = i / 4;
            let c = i % 4;
            assert(m.positions@[4 * q + c] == quad_corner(m.quads@[q], c));
            assert(n.positions@[4 * q + c] == quad_corner(n.quads@[q], c));
        }
        assert(m.positions@ =~= n.positions@);
        assert forall|i: int| 0 <= i < m.normals@.len() implies m.normals@[i] == n.normals@[i] by {
            let q = i / 4;
            let c = i % 4;
            assert(m.normals@[4 * q + c] == m.quads@[q].direction.offset());
            assert(n.normals@[4 * q + c] == n.quads@[q].direction.offset());
        }
        assert(m.normals@ =~= n.normals@);
        assert forall|i: int| 0 <= i < m.triangles@.len() implies m.triangles@[i] == n.triangles@[i] by {
            let q = i / 2;
            if i % 2 == 0 {
                assert(m.triangles@[2 * q] == quad_triangles(m.quads@[q], 4 * q).0);
                assert(n.triangles@[2 * q] == quad_triangles(n.quads@[q], 4 * q).0);
            } else {
                assert(m.triangles@[2 * q + 1] == quad_triangles(m.quads@[q], 4 * q).1);
                assert(n.triangles@[2 * q + 1] == quad_triangles(n.quads@[q], 4 * q).1);
            }
        }
        assert(m.triangles@ =~= n.triangles@);
    }
}

} // verus!
