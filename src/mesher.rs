use vstd::prelude::*;

use crate::voxel::VoxelMap;

verus! {

/// How far above a voxel the shading looks for a solid voxel.
pub const LIGHT_SCAN: i32 = 26;

/// Brightness of a face with nothing solid above its voxel.
pub const FULL_BRIGHTNESS: u8 = 255;

/// Brightness of a face whose voxel has a solid voxel above it within [`LIGHT_SCAN`].
pub const MIN_BRIGHTNESS: u8 = 127;

/// The six faces of a voxel: `Up` is +y, `Right` is +x, `Front` is +z.
#[derive(Clone, Copy, Debug, PartialEq, Eq, Structural)]
pub enum FaceSide {
    Up,
    Down,
    Left,
    Right,
    Front,
    Back,
}

/// A corner of an emitted face. Positions lie on the integer lattice: the cell with
/// minimum corner `(x, y, z)` spans `[x, x + 1]` on each axis.
#[derive(Clone, Copy, Debug, PartialEq, Eq)]
pub struct ChunkVertex {
    pub position: (i32, i32, i32),
    /// Unit normal, one component at +1 or -1.
    pub normal: (i8, i8, i8),
    /// Brightness, also the grey level of the face.
    pub color: u8,
    /// Texture coordinates, each 0 or 1.
    pub uv_0: (u8, u8),
    /// Layer of the texture array.
    pub index: u16,
}

/// One visible face: its side, the cell it belongs to, its brightness and texture.
#[derive(Clone, Copy, Debug, PartialEq, Eq)]
pub struct Quad {
    pub side: FaceSide,
    pub cell: (i32, i32, i32),
    pub light: u8,
    pub tex: u16,
}

/// Key of the chunk to mesh, in chunk coordinates.
pub struct ChunkKey(pub (i32, i32, i32));

impl ChunkKey {
    pub fn new(input: (i32, i32, i32)) -> (r: Self)
        ensures
            r.0 == input,
    {
        ChunkKey(input)
    }
}

pub open spec fn face_normal(side: FaceSide) -> (i8, i8, i8) {
    match side {
        FaceSide::Up => (0, 1, 0),
        FaceSide::Down => (0, -1i8, 0),
        FaceSide::Left => (-1i8, 0, 0),
        FaceSide::Right => (1, 0, 0),
        FaceSide::Front => (0, 0, 1),
        FaceSide::Back => (0, 0, -1i8),
    }
}

/// Offset from the cell's minimum corner of corner `k` of a face, in emission order.
pub open spec fn face_corner(side: FaceSide, k: int) -> (int, int, int) {
    match side {
        FaceSide::Up => if k == 0 {
            (1, 1, 0)
        } else if k == 1 {
            (0, 1, 0)
        } else if k == 2 {
            (0, 1, 1)
        } else {
            (1, 1, 1)
        },
        FaceSide::Down => if k == 0 {
            (1, 0, 0)
        } else if k == 1 {
            (0, 0, 0)
        } else if k == 2 {
            (0, 0, 1)
        } else {
            (1, 0, 1)
        },
        FaceSide::Left => if k == 0 {
            (0, 0, 0)
        } else if k == 1 {
            (0, 0, 1)
        } else if k == 2 {
            (0, 1, 1)
        } else {
            (0, 1, 0)
        },
        FaceSide::Right => if k == 0 {
            (1, 0, 1)
        } else if k == 1 {
            (1, 0, 0)
        } else if k == 2 {
            (1, 1, 0)
        } else {
            (1, 1, 1)
        },
        FaceSide::Front => if k == 0 {
            (0, 0, 1)
        } else if k == 1 {
            (1, 0, 1)
        } else if k == 2 {
            (1, 1, 1)
        } else {
            (0, 1, 1)
        },
        FaceSide::Back => if k == 0 {
            (1, 0, 0)
        } else if k == 1 {
            (0, 0, 0)
        } else if k == 2 {
            (0, 1, 0)
        } else {
            (1, 1, 0)
        },
    }
}

/// Texture coordinates of corner `k`: the same for every side.
pub open spec fn corner_uv(k: int) -> (u8, u8) {
    if k == 0 {
        (0, 1)
    } else if k == 1 {
        (1, 1)
    } else if k == 2 {
        (1, 0)
    } else {
        (0, 0)
    }
}

pub open spec fn quad_vertex(q: Quad, k: int) -> ChunkVertex {
    let c = face_corner(q.side, k);
    ChunkVertex {
        position: ((q.cell.0 + c.0) as i32, (q.cell.1 + c.1) as i32, (q.cell.2 + c.2) as i32),
        normal: face_normal(q.side),
        color: q.light,
        uv_0: corner_uv(k),
        index: q.tex,
    }
}

/// The four corners of a face.
pub open spec fn quad_vertices(q: Quad) -> Seq<ChunkVertex> {
    seq![quad_vertex(q, 0), quad_vertex(q, 1), quad_vertex(q, 2), quad_vertex(q, 3)]
}

/// The two triangles of a face whose first corner is vertex `base`; the winding of each
/// side faces outwards.
pub open spec fn quad_indices(side: FaceSide, base: int) -> Seq<u32> {
    match side {
        FaceSide::Down => seq![
            (base + 3) as u32,
            (base + 1) as u32,
            base as u32,
            (base + 3) as u32,
            (base + 2) as u32,
            (base + 1) as u32,
        ],
        _ => seq![
            base as u32,
            (base + 1) as u32,
            (base + 3) as u32,
            (base + 1) as u32,
            (base + 2) as u32,
            (base + 3) as u32,
        ],
    }
}

/// Vertices of a run of faces.
pub open spec fn quads_vertices(qs: Seq<Quad>) -> Seq<ChunkVertex>
    decreases qs.len(),
{
    if qs.len() == 0 {
        Seq::empty()
    } else {
        quads_vertices(qs.drop_last()) + quad_vertices(qs.last())
    }
}

/// Indices of a run of faces whose vertices start at vertex `base`.
pub open spec fn quads_indices(qs: Seq<Quad>, base: int) -> Seq<u32>
    decreases qs.len(),
{
    if qs.len() == 0 {
        Seq::empty()
    } else {
        quads_indices(qs.drop_last(), base) + quad_indices(
            qs.last().side,
            base + 4 * (qs.len() - 1),
        )
    }
}

proof fn lemma_quads_push(qs: Seq<Quad>, q: Quad, base: int)
    ensures
        quads_vertices(qs.push(q)) == quads_vertices(qs) + quad_vertices(q),
        quads_indices(qs.push(q), base) == quads_indices(qs, base) + quad_indices(
            q.side,
            base + 4 * qs.len(),
        ),
{
    assert(qs.push(q).drop_last() =~= qs);
}

proof fn lemma_quads_concat(a: Seq<Quad>, b: Seq<Quad>, base: int)
    ensures
        quads_vertices(a + b) == quads_vertices(a) + quads_vertices(b),
        quads_indices(a + b, base) == quads_indices(a, base) + quads_indices(
            b,
            base + 4 * a.len(),
        ),
    decreases b.len(),
{
    if b.len() == 0 {
        assert(a + b =~= a);
        assert(quads_vertices(a) + quads_vertices(b) =~= quads_vertices(a));
        assert(quads_indices(a, base) + quads_indices(b, base + 4 * a.len()) =~= quads_indices(
            a,
            base,
        ));
    } else {
        let b2 = b.drop_last();
        lemma_quads_concat(a, b2, base);
        assert((a + b).drop_last() =~= a + b2);
        assert((a + b).last() == b.last());
        assert(quads_vertices(a + b) =~= quads_vertices(a) + quads_vertices(b));
        assert(quads_indices(a + b, base) =~= quads_indices(a, base) + quads_indices(
            b,
            base + 4 * a.len(),
        ));
    }
}

fn face_normal_of(side: FaceSide) -> (r: (i8, i8, i8))
    ensures
        r == face_normal(side),
{
    match side {
        FaceSide::Up => (0, 1, 0),
        FaceSide::Down => (0, -1, 0),
        FaceSide::Left => (-1, 0, 0),
        FaceSide::Right => (1, 0, 0),
        FaceSide::Front => (0, 0, 1),
        FaceSide::Back => (0, 0, -1),
    }
}

fn face_corner_of(side: FaceSide, k: u8) -> (r: (i32, i32, i32))
    requires
        k < 4,
    ensures
        r.0 as int == face_corner(side, k as int).0,
        r.1 as int == face_corner(side, k as int).1,
        r.2 as int == face_corner(side, k as int).2,
{
    match side {
        FaceSide::Up => if k == 0 {
            (1, 1, 0)
        } else if k == 1 {
            (0, 1, 0)
        } else if k == 2 {
            (0, 1, 1)
        } else {
            (1, 1, 1)
        },
        FaceSide::Down => if k == 0 {
            (1, 0, 0)
        } else if k == 1 {
            (0, 0, 0)
        } else if k == 2 {
            (0, 0, 1)
        } else {
            (1, 0, 1)
        },
        FaceSide::Left => if k == 0 {
            (0, 0, 0)
        } else if k == 1 {
            (0, 0, 1)
        } else if k == 2 {
            (0, 1, 1)
        } else {
            (0, 1, 0)
        },
        FaceSide::Right => if k == 0 {
            (1, 0, 1)
        } else if k == 1 {
            (1, 0, 0)
        } else if k == 2 {
            (1, 1, 0)
        } else {
            (1, 1, 1)
        },
        FaceSide::Front => if k == 0 {
            (0, 0, 1)
        } else if k == 1 {
            (1, 0, 1)
        } else if k == 2 {
            (1, 1, 1)
        } else {
            (0, 1, 1)
        },
        FaceSide::Back => if k == 0 {
            (1, 0, 0)
        } else if k == 1 {
            (0, 0, 0)
        } else if k == 2 {
            (0, 1, 0)
        } else {
            (1, 1, 0)
        },
    }
}

fn corner_uv_of(k: u8) -> (r: (u8, u8))
    ensures
        r == corner_uv(k as int),
{
    if k == 0 {
        (0, 1)
    } else if k == 1 {
        (1, 1)
    } else if k == 2 {
        (1, 0)
    } else {
        (0, 0)
    }
}

fn quad_corner(q: &Quad, k: u8) -> (r: ChunkVertex)
    requires
        k < 4,
        q.cell.0 < i32::MAX,
        q.cell.1 < i32::MAX,
        q.cell.2 < i32::MAX,
    ensures
        r == quad_vertex(*q, k as int),
{
    let c = face_corner_of(q.side, k);
    ChunkVertex {
        position: (q.cell.0 + c.0, q.cell.1 + c.1, q.cell.2 + c.2),
        normal: face_normal_of(q.side),
        color: q.light,
        uv_0: corner_uv_of(k),
        index: q.tex,
    }
}

/// Appends one face of the unit cell with minimum corner `pos`: its four corners, and the
/// six indices of its two triangles, numbered from `*i_step`, which then moves past them.
pub fn add_quad(
    side: FaceSide,
    color: u8,
    pos: (i32, i32, i32),
    chunk_vertices: &mut Vec<ChunkVertex>,
    i_step: &mut u32,
    vec_i: &mut Vec<u32>,
    tex_index: u16,
)
    requires
        pos.0 < i32::MAX,
        pos.1 < i32::MAX,
        pos.2 < i32::MAX,
        *old(i_step) + 4 <= u32::MAX,
    ensures
        final(chunk_vertices)@ == old(chunk_vertices)@ + quad_vertices(
            Quad { side, cell: pos, light: color, tex: tex_index },
        ),
        final(vec_i)@ == old(vec_i)@ + quad_indices(side, *old(i_step) as int),
        *final(i_step) == *old(i_step) + 4,
{
    let q = Quad { side, cell: pos, light: color, tex: tex_index };
    chunk_vertices.push(quad_corner(&q, 0));
    chunk_vertices.push(quad_corner(&q, 1));
    chunk_vertices.push(quad_corner(&q, 2));
    chunk_vertices.push(quad_corner(&q, 3));
    let b = *i_step;
    match side {
        FaceSide::Down => {
            vec_i.push(3 + b);
            vec_i.push(1 + b);
            vec_i.push(b);
            vec_i.push(3 + b);
            vec_i.push(2 + b);
            vec_i.push(1 + b);
        },
        _ => {
            vec_i.push(b);
            vec_i.push(1 + b);
            vec_i.push(3 + b);
            vec_i.push(1 + b);
            vec_i.push(2 + b);
            vec_i.push(3 + b);
        },
    }
    *i_step = b + 4;
    proof {
        assert(chunk_vertices@ =~= old(chunk_vertices)@ + quad_vertices(q));
        assert(vec_i@ =~= old(vec_i)@ + quad_indices(side, b as int));
    }
}

/// The voxel `dy` cells above `(x, y, z)`.
pub open spec fn above(m: VoxelMap, x: i32, y: i32, z: i32, dy: int) -> u16 {
    m.voxel_at(x, (y + dy) as i32, z)
}

/// Some solid voxel lies within [`LIGHT_SCAN`] cells above `(x, y, z)`.
pub open spec fn occluded(m: VoxelMap, x: i32, y: i32, z: i32) -> bool {
    exists|dy: int| 1 <= dy <= LIGHT_SCAN && #[trigger] above(m, x, y, z, dy) != 0
}

/// Brightness of the faces of the voxel at `(x, y, z)`.
pub open spec fn shade(m: VoxelMap, x: i32, y: i32, z: i32) -> u8 {
    if occluded(m, x, y, z) {
        MIN_BRIGHTNESS
    } else {
        FULL_BRIGHTNESS
    }
}

pub open spec fn face_if(visible: bool, q: Quad) -> Seq<Quad> {
    if visible {
        seq![q]
    } else {
        Seq::empty()
    }
}

/// Faces emitted for the voxel at global `(x, y, z)`, drawn in the cell at `pos`: none for
/// air; for a solid voxel each face whose neighbour is air, in the order up, down, right,
/// left, front, back, with texture layer `voxel - 1`.
pub open spec fn cell_quads(m: VoxelMap, x: i32, y: i32, z: i32, pos: (i32, i32, i32)) -> Seq<
    Quad,
> {
    let v = m.voxel_at(x, y, z);
    let light = shade(m, x, y, z);
    let tex = (v - 1) as u16;
    if v == 0 {
        Seq::empty()
    } else {
        face_if(
            m.voxel_at(x, (y + 1) as i32, z) == 0,
            Quad { side: FaceSide::Up, cell: pos, light, tex },
        ) + face_if(
            m.voxel_at(x, (y - 1) as i32, z) == 0,
            Quad { side: FaceSide::Down, cell: pos, light, tex },
        ) + face_if(
            m.voxel_at((x + 1) as i32, y, z) == 0,
            Quad { side: FaceSide::Right, cell: pos, light, tex },
        ) + face_if(
            m.voxel_at((x - 1) as i32, y, z) == 0,
            Quad { side: FaceSide::Left, cell: pos, light, tex },
        ) + face_if(
            m.voxel_at(x, y, (z + 1) as i32) == 0,
            Quad { side: FaceSide::Front, cell: pos, light, tex },
        ) + face_if(
            m.voxel_at(x, y, (z - 1) as i32) == 0,
            Quad { side: FaceSide::Back, cell: pos, light, tex },
        )
    }
}

/// Where the faces of global `(x, y, z)` are drawn: relative to the chunk origin `o`, or at
/// the global position when `global` is set.
pub open spec fn mesh_pos(x: int, y: int, z: int, o: (int, int, int), global: bool) -> (
    i32,
    i32,
    i32,
) {
    if global {
        (x as i32, y as i32, z as i32)
    } else {
        ((x - o.0) as i32, (y - o.1) as i32, (z - o.2) as i32)
    }
}

/// Faces of the first `nz` voxels of the column at `(x, y)`, from `z = o.2` upwards.
pub open spec fn column_quads(
    m: VoxelMap,
    o: (int, int, int),
    x: int,
    y: int,
    nz: nat,
    global: bool,
) -> Seq<Quad>
    decreases nz,
{
    if nz == 0 {
        Seq::empty()
    } else {
        let z = o.2 + nz - 1;
        column_quads(m, o, x, y, (nz - 1) as nat, global) + cell_quads(
            m,
            x as i32,
            y as i32,
            z as i32,
            mesh_pos(x, y, z, o, global),
        )
    }
}

/// Faces of the first `ny` columns of the slab at `x`, each of `s.2` voxels.
pub open spec fn slab_quads(
    m: VoxelMap,
    o: (int, int, int),
    s: (int, int, int),
    x: int,
    ny: nat,
    global: bool,
) -> Seq<Quad>
    decreases ny,
{
    if ny == 0 {
        Seq::empty()
    } else {
        slab_quads(m, o, s, x, (ny - 1) as nat, global) + column_quads(
            m,
            o,
            x,
            o.1 + ny - 1,
            s.2 as nat,
            global,
        )
    }
}

/// Faces of the first `nx` slabs of the box at `o` of sides `s`.
pub open spec fn block_quads(
    m: VoxelMap,
    o: (int, int, int),
    s: (int, int, int),
    nx: nat,
    global: bool,
) -> Seq<Quad>
    decreases nx,
{
    if nx == 0 {
        Seq::empty()
    } else {
        block_quads(m, o, s, (nx - 1) as nat, global) + slab_quads(
            m,
            o,
            s,
            o.0 + nx - 1,
            s.1 as nat,
            global,
        )
    }
}

/// A solid voxel with air on all six sides shows all six faces.
pub proof fn lemma_isolated_cell(m: VoxelMap, x: i32, y: i32, z: i32, pos: (i32, i32, i32))
    requires
        m.voxel_at(x, y, z) != 0,
        m.voxel_at(x, (y + 1) as i32, z) == 0,
        m.voxel_at(x, (y - 1) as i32, z) == 0,
        m.voxel_at((x + 1) as i32, y, z) == 0,
        m.voxel_at((x - 1) as i32, y, z) == 0,
        m.voxel_at(x, y, (z + 1) as i32) == 0,
        m.voxel_at(x, y, (z - 1) as i32) == 0,
    ensures
        cell_quads(m, x, y, z, pos).len() == 6,
{
}

/// Two solid voxels side by side along x hide the face between them: the lower one shows no
/// right face and the upper one no left face.
pub proof fn lemma_shared_face_hidden(
    m: VoxelMap,
    x: i32,
    y: i32,
    z: i32,
    pos: (i32, i32, i32),
    next_pos: (i32, i32, i32),
)
    requires
        x < i32::MAX,
        m.voxel_at(x, y, z) != 0,
        m.voxel_at((x + 1) as i32, y, z) != 0,
    ensures
        forall|i: int|
            0 <= i < cell_quads(m, x, y, z, pos).len() ==> #[trigger] cell_quads(
                m,
                x,
                y,
                z,
                pos,
            )[i].side != FaceSide::Right,
        forall|i: int|
            0 <= i < cell_quads(m, (x + 1) as i32, y, z, next_pos).len() ==> #[trigger] cell_quads(
                m,
                (x + 1) as i32,
                y,
                z,
                next_pos,
            )[i].side != FaceSide::Left,
{
    let x1 = (x + 1) as i32;
    assert(((x1 - 1) as i32) == x);
}

/// Global coordinates of the first voxel of the chunk at `key`.
pub open spec fn chunk_origin(m: VoxelMap, key: (i32, i32, i32)) -> (int, int, int) {
    (key.0 * m.side().0, key.1 * m.side().1, key.2 * m.side().2)
}

pub open spec fn side_of(m: VoxelMap) -> (int, int, int) {
    (m.side().0 as int, m.side().1 as int, m.side().2 as int)
}

/// Every face of the chunk at `key`, voxel by voxel with x outermost and z innermost.
pub open spec fn chunk_quads(m: VoxelMap, key: (i32, i32, i32), global: bool) -> Seq<Quad> {
    block_quads(m, chunk_origin(m, key), side_of(m), m.side().0 as nat, global)
}

/// Meshing the chunk at `key` stays within `i32` coordinates, neighbours and the shading
/// scan included, and within `u32` vertex numbers from `step`.
pub open spec fn mesh_fits(m: VoxelMap, key: (i32, i32, i32), step: int) -> bool {
    let o = chunk_origin(m, key);
    let s = side_of(m);
    &&& o.0 - 1 >= i32::MIN && o.0 + s.0 + 1 <= i32::MAX
    &&& o.1 - 1 >= i32::MIN && o.1 + s.1 + LIGHT_SCAN <= i32::MAX
    &&& o.2 - 1 >= i32::MIN && o.2 + s.2 + 1 <= i32::MAX
    &&& step + 24 * (s.0 * s.1 * s.2) <= u32::MAX
}

/// What meshing the chunk at `key` from vertex number `step` appends: the vertices, the
/// indices and the number of vertices of its faces.
pub open spec fn mesh_result(
    m: VoxelMap,
    key: (i32, i32, i32),
    global: bool,
    step: int,
    vertices: Seq<ChunkVertex>,
    indices: Seq<u32>,
    next_step: int,
) -> bool {
    let qs = chunk_quads(m, key, global);
    &&& vertices == quads_vertices(qs)
    &&& indices == quads_indices(qs, step)
    &&& next_step == step + 4 * qs.len()
}

/// Meshing is a function of the voxels: two meshings of the same chunk from the same vertex
/// number append the same vertices and indices, in the same order.
pub proof fn lemma_mesh_deterministic(
    m: VoxelMap,
    key: (i32, i32, i32),
    global: bool,
    step: int,
    v1: Seq<ChunkVertex>,
    i1: Seq<u32>,
    s1: int,
    v2: Seq<ChunkVertex>,
    i2: Seq<u32>,
    s2: int,
)
    requires
        mesh_result(m, key, global, step, v1, i1, s1),
        mesh_result(m, key, global, step, v2, i2, s2),
    ensures
        v1 == v2,
        i1 == i2,
        s1 == s2,
{
}

/// A cell of a box of sides `a` by `b` by `c`, counted in loop order, is not past its end.
proof fn lemma_cell_count(i: int, j: int, k: int, a: int, b: int, c: int)
    requires
        0 <= i < a,
        0 <= j < b,
        0 <= k < c,
    ensures
        i * (b * c) + j * c + k + 1 <= a * (b * c),
{
    assert(j * c + k + 1 <= b * c) by (nonlinear_arith)
        requires
            0 <= j < b,
            0 <= k < c,
    ;
    assert(i * (b * c) + b * c <= a * (b * c)) by (nonlinear_arith)
        requires
            0 <= i < a,
            0 <= b,
            0 <= c,
    ;
}

/// Appends face `q` when `visible`, continuing a run `done` of faces that started with
/// vertices `v0`, indices `i0` and vertex number `s0`.
fn emit_face(
    visible: bool,
    q: Quad,
    chunk_vertices: &mut Vec<ChunkVertex>,
    mesh_i: &mut Vec<u32>,
    step_i: &mut u32,
    Ghost(done): Ghost<Seq<Quad>>,
    Ghost(v0): Ghost<Seq<ChunkVertex>>,
    Ghost(i0): Ghost<Seq<u32>>,
    Ghost(s0): Ghost<int>,
)
    requires
        done.len() <= 5,
        old(chunk_vertices)@ == v0 + quads_vertices(done),
        old(mesh_i)@ == i0 + quads_indices(done, s0),
        *old(step_i) == s0 + 4 * done.len(),
        s0 + 24 <= u32::MAX,
        q.cell.0 < i32::MAX,
        q.cell.1 < i32::MAX,
        q.cell.2 < i32::MAX,
    ensures
        final(chunk_vertices)@ == v0 + quads_vertices(done + face_if(visible, q)),
        final(mesh_i)@ == i0 + quads_indices(done + face_if(visible, q), s0),
        *final(step_i) == s0 + 4 * (done + face_if(visible, q)).len(),
{
    if visible {
        proof {
            lemma_quads_push(done, q, s0);
            assert(done + face_if(visible, q) =~= done.push(q));
        }
        add_quad(q.side, q.light, q.cell, chunk_vertices, step_i, mesh_i, q.tex);
        proof {
            assert(chunk_vertices@ =~= v0 + quads_vertices(done.push(q)));
            assert(mesh_i@ =~= i0 + quads_indices(done.push(q), s0));
        }
    } else {
        assert(done + face_if(visible, q) =~= done);
    }
}

impl VoxelMap {
    /// Appends the faces of the chunk at `chunk_key`: the vertices to `chunk_vertices`, the
    /// indices to `mesh_i`, numbered from `*step_i`, which moves past the new vertices.
    /// Positions are relative to the chunk origin, or global when `debug_b` is set.
    #[verifier::rlimit(40)]
    #[verifier::spinoff_prover]
    pub fn update_chunk_mesh(
        &self,
        chunk_key: ChunkKey,
        chunk_vertices: &mut Vec<ChunkVertex>,
        mesh_i: &mut Vec<u32>,
        step_i: &mut u32,
        debug_b: bool,
    )
        requires
            self.wf(),
            mesh_fits(*self, chunk_key.0, *old(step_i) as int),
        ensures
            ({
                let qs = chunk_quads(*self, chunk_key.0, debug_b);
                &&& final(chunk_vertices)@ == old(chunk_vertices)@ + quads_vertices(qs)
                &&& final(mesh_i)@ == old(mesh_i)@ + quads_indices(qs, *old(step_i) as int)
                &&& *final(step_i) == *old(step_i) + 4 * qs.len()
            }),
    {
        proof {
            self.lemma_side_bounds();
        }
        let ghost m = *self;
        let ghost v0 = chunk_vertices@;
        let ghost i0 = mesh_i@;
        let ghost s0 = *step_i as int;
        let (sx, sy, sz) = self.chunk_size();
        let ox = chunk_key.0.0 * sx;
        let oy = chunk_key.0.1 * sy;
        let oz = chunk_key.0.2 * sz;
        let ghost o = (ox as int, oy as int, oz as int);
        let ghost s = (sx as int, sy as int, sz as int);
        let ghost plane = sy as int * sz as int;
        let ghost total = sx as int * plane;
        proof {
            assert(s.0 * s.1 * s.2 == total) by (nonlinear_arith)
                requires
                    plane == s.1 * s.2,
                    total == s.0 * plane,
            ;
        }
        let ghost mut quads: Seq<Quad> = Seq::empty();
        let ghost mut cells: int = 0;
        proof {
            assert(chunk_vertices@ =~= v0 + quads_vertices(quads));
            assert(mesh_i@ =~= i0 + quads_indices(quads, s0));
        }
        let mut x = ox;
        while x < ox + sx
            invariant
                self.wf(),
                m == *self,
                1 <= sx <= 1024 && 1 <= sy <= 1024 && 1 <= sz <= 1024,
                s == side_of(m),
                o == chunk_origin(m, chunk_key.0),
                (sx, sy, sz) == m.side(),
                (ox as int, oy as int, oz as int) == o,
                plane == sy * sz,
                total == sx * plane,
                mesh_fits(m, chunk_key.0, s0),
                s0 + 24 * total <= u32::MAX,
                ox <= x <= ox + sx,
                quads == block_quads(m, o, s, (x - ox) as nat, debug_b),
                chunk_vertices@ == v0 + quads_vertices(quads),
                mesh_i@ == i0 + quads_indices(quads, s0),
                *step_i == s0 + 4 * quads.len(),
                quads.len() <= 6 * cells,
                cells == (x - ox) * plane,
            decreases ox + sx - x,
        {
            let mut y = oy;
            while y < oy + sy
                invariant
                    self.wf(),
                    m == *self,
                    1 <= sx <= 1024 && 1 <= sy <= 1024 && 1 <= sz <= 1024,
                    s == side_of(m),
                    o == chunk_origin(m, chunk_key.0),
                    (sx, sy, sz) == m.side(),
                    (ox as int, oy as int, oz as int) == o,
                    plane == sy * sz,
                    total == sx * plane,
                    mesh_fits(m, chunk_key.0, s0),
                    s0 + 24 * total <= u32::MAX,
                    ox <= x < ox + sx,
                    oy <= y <= oy + sy,
                    quads == block_quads(m, o, s, (x - ox) as nat, debug_b) + slab_quads(
                        m,
                        o,
                        s,
                        x as int,
                        (y - oy) as nat,
                        debug_b,
                    ),
                    chunk_vertices@ == v0 + quads_vertices(quads),
                    mesh_i@ == i0 + quads_indices(quads, s0),
                    *step_i == s0 + 4 * quads.len(),
                    quads.len() <= 6 * cells,
                    cells == (x - ox) * plane + (y - oy) * sz,
                decreases oy + sy - y,
            {
                let mut z = oz;
                while z < oz + sz
                    invariant
                        self.wf(),
                        m == *self,
                        1 <= sx <= 1024 && 1 <= sy <= 1024 && 1 <= sz <= 1024,
                        s == side_of(m),
                        o == chunk_origin(m, chunk_key.0),
                        (sx, sy, sz) == m.side(),
                        (ox as int, oy as int, oz as int) == o,
                        plane == sy * sz,
                        total == sx * plane,
                        mesh_fits(m, chunk_key.0, s0),
                        s0 + 24 * total <= u32::MAX,
                        ox <= x < ox + sx,
                        oy <= y < oy + sy,
                        oz <= z <= oz + sz,
                        quads == block_quads(m, o, s, (x - ox) as nat, debug_b) + slab_quads(
                            m,
                            o,
                            s,
                            x as int,
                            (y - oy) as nat,
                            debug_b,
                        ) + column_quads(m, o, x as int, y as int, (z - oz) as nat, debug_b),
                        chunk_vertices@ == v0 + quads_vertices(quads),
                        mesh_i@ == i0 + quads_indices(quads, s0),
                        *step_i == s0 + 4 * quads.len(),
                        quads.len() <= 6 * cells,
                        cells == (x - ox) * plane + (y - oy) * sz + (z - oz),
                    decreases oz + sz - z,
                {
                    proof {
                        lemma_cell_count(x - ox, y - oy, z - oz, sx as int, sy as int, sz as int);
                    }
                    let pos = if debug_b {
                        (x, y, z)
                    } else {
                        (x - ox, y - oy, z - oz)
                    };
                    let ghost cq = cell_quads(m, x, y, z, pos);
                    let ghost before = quads;
                    self.mesh_cell(x, y, z, pos, chunk_vertices, mesh_i, step_i);
                    proof {
                        lemma_quads_concat(before, cq, s0);
                        assert(pos == mesh_pos(x as int, y as int, z as int, o, debug_b));
                        quads = before + cq;
                        cells = cells + 1;
                        assert(quads =~= block_quads(m, o, s, (x - ox) as nat, debug_b) + slab_quads(
                            m,
                            o,
                            s,
                            x as int,
                            (y - oy) as nat,
                            debug_b,
                        ) + column_quads(m, o, x as int, y as int, (z + 1 - oz) as nat, debug_b));
                    }
                    z += 1;
                }
                proof {
                    assert(quads =~= block_quads(m, o, s, (x - ox) as nat, debug_b) + slab_quads(
                        m,
                        o,
                        s,
                        x as int,
                        (y + 1 - oy) as nat,
                        debug_b,
                    ));
                    assert((y - oy) * sz + sz == (y + 1 - oy) * sz) by (nonlinear_arith);
                }
                y += 1;
            }
            proof {
                assert(quads =~= block_quads(m, o, s, (x + 1 - ox) as nat, debug_b));
                assert((x - ox) * plane + sy * sz == (x + 1 - ox) * plane) by (nonlinear_arith)
                    requires
                        plane == sy * sz,
                ;
            }
            x += 1;
        }
    }

    /// Some solid voxel lies within [`LIGHT_SCAN`] cells above `(x, y, z)`.
    fn occluded_above(&self, x: i32, y: i32, z: i32) -> (r: bool)
        requires
            self.wf(),
            y + LIGHT_SCAN <= i32::MAX,
        ensures
            r == occluded(*self, x, y, z),
    {
        let mut dy: i32 = 1;
        let mut found = false;
        while dy <= LIGHT_SCAN && !found
            invariant
                self.wf(),
                y + LIGHT_SCAN <= i32::MAX,
                1 <= dy <= LIGHT_SCAN + 1,
                found ==> occluded(*self, x, y, z),
                !found ==> forall|d: int| 1 <= d < dy ==> #[trigger] above(*self, x, y, z, d) == 0,
            decreases LIGHT_SCAN + 1 - dy + (if found { 0int } else { 1int }),
        {
            if self.get_voxel(x, y + dy, z) != 0 {
                proof {
                    assert(above(*self, x, y, z, dy as int) != 0);
                }
                found = true;
            } else {
                dy += 1;
            }
        }
        found
    }

    /// Appends the faces of the voxel at global `(x, y, z)`, drawn in the cell at `pos`.
    fn mesh_cell(
        &self,
        x: i32,
        y: i32,
        z: i32,
        pos: (i32, i32, i32),
        chunk_vertices: &mut Vec<ChunkVertex>,
        mesh_i: &mut Vec<u32>,
        step_i: &mut u32,
    )
        requires
            self.wf(),
            i32::MIN < x < i32::MAX,
            i32::MIN < y && y + LIGHT_SCAN <= i32::MAX,
            i32::MIN < z < i32::MAX,
            pos.0 < i32::MAX,
            pos.1 < i32::MAX,
            pos.2 < i32::MAX,
            *old(step_i) + 24 <= u32::MAX,
        ensures
            ({
                let qs = cell_quads(*self, x, y, z, pos);
                &&& qs.len() <= 6
                &&& final(chunk_vertices)@ == old(chunk_vertices)@ + quads_vertices(qs)
                &&& final(mesh_i)@ == old(mesh_i)@ + quads_indices(qs, *old(step_i) as int)
                &&& *final(step_i) == *old(step_i) + 4 * qs.len()
            }),
    {
        let ghost m = *self;
        let ghost verts0 = chunk_vertices@;
        let ghost inds0 = mesh_i@;
        let ghost step0 = *step_i as int;
        let v = self.get_voxel(x, y, z);
        if v == 0 {
            proof {
                assert(chunk_vertices@ =~= verts0 + quads_vertices(Seq::empty()));
                assert(mesh_i@ =~= inds0 + quads_indices(Seq::empty(), step0));
            }
            return;
        }
        let gv_up = self.get_voxel(x, y + 1, z);
        let gv_down = self.get_voxel(x, y - 1, z);
        let gv_right = self.get_voxel(x + 1, y, z);
        let gv_left = self.get_voxel(x - 1, y, z);
        let gv_front = self.get_voxel(x, y, z + 1);
        let gv_back = self.get_voxel(x, y, z - 1);
        let light = if self.occluded_above(x, y, z) {
            MIN_BRIGHTNESS
        } else {
            FULL_BRIGHTNESS
        };
        let tex = v - 1;
        proof {
            assert(chunk_vertices@ =~= verts0 + quads_vertices(Seq::empty()));
            assert(mesh_i@ =~= inds0 + quads_indices(Seq::empty(), step0));
        }
        let ghost e0: Seq<Quad> = Seq::empty();
        let up = Quad { side: FaceSide::Up, cell: pos, light, tex };
        emit_face(gv_up == 0, up, chunk_vertices, mesh_i, step_i, Ghost(e0), Ghost(verts0), Ghost(inds0), Ghost(step0));
        let ghost e1 = e0 + face_if(gv_up == 0, up);
        let down = Quad { side: FaceSide::Down, cell: pos, light, tex };
        emit_face(gv_down == 0, down, chunk_vertices, mesh_i, step_i, Ghost(e1), Ghost(verts0), Ghost(inds0), Ghost(step0));
        let ghost e2 = e1 + face_if(gv_down == 0, down);
        let right = Quad { side: FaceSide::Right, cell: pos, light, tex };
        emit_face(gv_right == 0, right, chunk_vertices, mesh_i, step_i, Ghost(e2), Ghost(verts0), Ghost(inds0), Ghost(step0));
        let ghost e3 = e2 + face_if(gv_right == 0, right);
        let left = Quad { side: FaceSide::Left, cell: pos, light, tex };
        emit_face(gv_left == 0, left, chunk_vertices, mesh_i, step_i, Ghost(e3), Ghost(verts0), Ghost(inds0), Ghost(step0));
        let ghost e4 = e3 + face_if(gv_left == 0, left);
        let front = Quad { side: FaceSide::Front, cell: pos, light, tex };
        emit_face(gv_front == 0, front, chunk_vertices, mesh_i, step_i, Ghost(e4), Ghost(verts0), Ghost(inds0), Ghost(step0));
        let ghost e5 = e4 + face_if(gv_front == 0, front);
        let back = Quad { side: FaceSide::Back, cell: pos, light, tex };
        emit_face(gv_back == 0, back, chunk_vertices, mesh_i, step_i, Ghost(e5), Ghost(verts0), Ghost(inds0), Ghost(step0));
        proof {
            let e6 = e5 + face_if(gv_back == 0, back);
            assert(e6 =~= cell_quads(m, x, y, z, pos));
        }
    }
}

/// A face corner in the vertex layout of the chunk pipeline: signed normalised normal,
/// unsigned normalised colour, and texture coordinates followed by the texture layer split
/// into its high and low byte. The position stays on the lattice.
#[derive(Clone, Copy, Debug, PartialEq, Eq)]
pub struct PackedChunkVertex {
    pub pos: (i32, i32, i32),
    pub normal: (i8, i8, i8, i8),
    pub color: (u8, u8, u8, u8),
    pub uv: (u8, u8, u8, u8),
}

/// A normal component scaled by 128 into a signed byte, saturating.
pub open spec fn snorm8(n: i8) -> i8 {
    if n > 0 {
        127
    } else if n < 0 {
        -128i8
    } else {
        0
    }
}

/// A texture coordinate scaled by 255 into a byte, saturating.
pub open spec fn unorm8(u: u8) -> u8 {
    if u > 0 {
        255
    } else {
        0
    }
}

fn snorm8_of(n: i8) -> (r: i8)
    ensures
        r == snorm8(n),
{
    if n > 0 {
        127
    } else if n < 0 {
        -128
    } else {
        0
    }
}

fn unorm8_of(u: u8) -> (r: u8)
    ensures
        r == unorm8(u),
{
    if u > 0 {
        255
    } else {
        0
    }
}

impl ChunkVertex {
    pub fn pack(&self) -> (r: PackedChunkVertex)
        ensures
            r.pos == self.position,
            r.normal == (snorm8(self.normal.0), snorm8(self.normal.1), snorm8(self.normal.2), 0i8),
            r.color == (self.color, self.color, self.color, 0u8),
            r.uv == (
                unorm8(self.uv_0.0),
                unorm8(self.uv_0.1),
                (self.index / 256) as u8,
                (self.index % 256) as u8,
            ),
    {
        let index = self.index;
        let hi = ((index & 0xff00) >> 8) as u8;
        let lo = (index & 0x00ff) as u8;
        proof {
            assert((index & 0xff00) >> 8 == index / 256) by (bit_vector);
            assert(index & 0x00ff == index % 256) by (bit_vector);
        }
        PackedChunkVertex {
            pos: self.position,
            normal: (snorm8_of(self.normal.0), snorm8_of(self.normal.1), snorm8_of(self.normal.2), 0),
            color: (self.color, self.color, self.color, 0),
            uv: (unorm8_of(self.uv_0.0), unorm8_of(self.uv_0.1), hi, lo),
        }
    }
}

} // verus!
