use vstd::prelude::*;
use std::collections::BTreeMap;

use crate::layers::Volume;
use crate::math::{flat_index, is_chunk_side, lemma_split_floor, lemma_split_injective, log2_side};

verus! {

/// Largest side of a chunk: the volume of a chunk then fits an `i32` index.
pub const MAX_CHUNK_SIDE: i32 = 1024;

/// A cube of voxels; the dense volume exists only once a solid voxel was written.
pub struct Chunk {
    /// The mesh of the chunk is out of date.
    pub dirty: bool,
    /// The chunk differs from what was last saved.
    pub save_dirty: bool,
    pub entity_exist: bool,
    pub size: i32,
    pub volume: Option<Volume>,
}

/// Persistent form of a chunk: `None` for an all-air chunk that never held a solid voxel,
/// otherwise every voxel, x fastest, then y, then z.
pub struct SaveChunk {
    pub voxel: Option<Vec<u32>>,
}

/// `x`, `y`, `z` in `[0, size)` and `size` at most [`MAX_CHUNK_SIDE`]: the flat index fits.
proof fn lemma_flat_index_bounds(x: int, y: int, z: int, size: int)
    requires
        0 <= x < size,
        0 <= y < size,
        0 <= z < size,
        size <= MAX_CHUNK_SIDE,
    ensures
        0 <= flat_index(x, y, z, size, size) < size * size * size,
        size * size * size <= MAX_CHUNK_SIDE * MAX_CHUNK_SIDE * MAX_CHUNK_SIDE,
{
    assert(0 <= y * size <= (size - 1) * size) by (nonlinear_arith)
        requires
            0 <= y < size,
    ;
    assert(0 <= z * size * size <= (size - 1) * size * size) by (nonlinear_arith)
        requires
            0 <= z < size,
    ;
    assert(size * size * size <= MAX_CHUNK_SIDE * MAX_CHUNK_SIDE * MAX_CHUNK_SIDE)
        by (nonlinear_arith)
        requires
            0 < size <= MAX_CHUNK_SIDE,
    ;
    assert((size - 1) + (size - 1) * size + (size - 1) * size * size == size * size * size - 1)
        by (nonlinear_arith);
}

/// Distinct cells of a chunk have distinct flat indices.
proof fn lemma_flat_index_injective(
    x: int,
    y: int,
    z: int,
    a: int,
    b: int,
    c: int,
    size: int,
)
    requires
        0 <= x < size,
        0 <= y < size,
        0 <= z < size,
        0 <= a < size,
        0 <= b < size,
        0 <= c < size,
        flat_index(x, y, z, size, size) == flat_index(a, b, c, size, size),
    ensures
        x == a && y == b && z == c,
{
    let p = x + y * size;
    let q = a + b * size;
    assert(0 <= p < size * size) by (nonlinear_arith)
        requires
            0 <= x < size,
            0 <= y < size,
            p == x + y * size,
    ;
    assert(0 <= q < size * size) by (nonlinear_arith)
        requires
            0 <= a < size,
            0 <= b < size,
            q == a + b * size,
    ;
    assert(p + z * (size * size) == q + c * (size * size)) by (nonlinear_arith)
        requires
            x + y * size + z * size * size == a + b * size + c * size * size,
            p == x + y * size,
            q == a + b * size,
    ;
    assert(z == c) by (nonlinear_arith)
        requires
            p + z * (size * size) == q + c * (size * size),
            0 <= p < size * size,
            0 <= q < size * size,
    ;
    assert(y == b) by (nonlinear_arith)
        requires
            x + y * size == a + b * size,
            0 <= x < size,
            0 <= a < size,
    ;
}

impl Chunk {
    pub open spec fn wf(self) -> bool {
        &&& 0 < self.size <= MAX_CHUNK_SIDE
        &&& match self.volume {
            Some(v) => v.type_id.layer@.len() == self.size * self.size * self.size,
            None => true,
        }
    }

    pub open spec fn in_bounds(self, x: int, y: int, z: int) -> bool {
        &&& 0 <= x < self.size
        &&& 0 <= y < self.size
        &&& 0 <= z < self.size
    }

    /// The voxel at local `(x, y, z)`; air outside the chunk and in an unallocated chunk.
    pub open spec fn voxel(self, x: int, y: int, z: int) -> u16 {
        if self.in_bounds(x, y, z) {
            match self.volume {
                Some(v) => v.type_id.layer@[flat_index(x, y, z, self.size as int, self.size as int)],
                None => 0,
            }
        } else {
            0
        }
    }

    /// `new` is `self` after writing `val` at local `(x, y, z)`: an in-bounds write takes,
    /// others leave the voxels as they were; both flags are raised either way.
    pub open spec fn written(self, x: int, y: int, z: int, val: u16, new: Chunk) -> bool {
        &&& new.wf()
        &&& new.size == self.size
        &&& new.dirty
        &&& new.save_dirty
        &&& new.entity_exist == self.entity_exist
        &&& new.volume.is_some() == (self.volume.is_some() || (self.in_bounds(x, y, z) && val
            != 0))
        &&& forall|a: int, b: int, c: int|
            #[trigger] new.voxel(a, b, c) == if a == x && b == y && c == z && self.in_bounds(
                x,
                y,
                z,
            ) {
                val
            } else {
                self.voxel(a, b, c)
            }
    }

    pub fn new(size: i32) -> (r: Self)
        requires
            0 < size <= MAX_CHUNK_SIDE,
        ensures
            r.wf(),
            r.size == size,
            r.volume.is_none(),
            !r.dirty,
            !r.save_dirty,
            !r.entity_exist,
    {
        Self { volume: None, dirty: false, save_dirty: false, entity_exist: false, size }
    }

    pub fn is_dirty(&self) -> (r: bool)
        ensures
            r == self.dirty,
    {
        self.dirty
    }

    pub fn set_is_dirty(&mut self, d: bool)
        ensures
            *final(self) == (Chunk { dirty: d, ..*old(self) }),
    {
        self.dirty = d;
    }

    fn flat(&self, x: i32, y: i32, z: i32) -> (r: usize)
        requires
            self.wf(),
            self.in_bounds(x as int, y as int, z as int),
        ensures
            r as int == flat_index(x as int, y as int, z as int, self.size as int, self.size as int),
            r < self.size * self.size * self.size,
    {
        proof {
            lemma_flat_index_bounds(x as int, y as int, z as int, self.size as int);
            assert(y * self.size <= MAX_CHUNK_SIDE * MAX_CHUNK_SIDE) by (nonlinear_arith)
                requires
                    0 <= y < self.size <= MAX_CHUNK_SIDE,
            ;
            assert(z * self.size <= MAX_CHUNK_SIDE * MAX_CHUNK_SIDE) by (nonlinear_arith)
                requires
                    0 <= z < self.size <= MAX_CHUNK_SIDE,
            ;
            assert(z * self.size * self.size <= MAX_CHUNK_SIDE * MAX_CHUNK_SIDE * MAX_CHUNK_SIDE)
                by (nonlinear_arith)
                requires
                    0 <= z < self.size <= MAX_CHUNK_SIDE,
            ;
        }
        (x + y * self.size + z * self.size * self.size) as usize
    }

    /// Writes `val` at local `(x, y, z)`; a write outside the chunk is dropped. The volume
    /// is allocated on the first solid write.
    pub fn set_voxel(&mut self, x: i32, y: i32, z: i32, val: u16)
        requires
            old(self).wf(),
        ensures
            old(self).written(x as int, y as int, z as int, val, *final(self)),
    {
        self.save_dirty = true;
        self.dirty = true;
        if !(0 <= x && x < self.size && 0 <= y && y < self.size && 0 <= z && z < self.size) {
            return;
        }
        let idx = self.flat(x, y, z);
        if self.volume.is_none() {
            if val == 0 {
                return;
            }
            proof {
                lemma_flat_index_bounds(x as int, y as int, z as int, self.size as int);
                assert(self.size * self.size <= MAX_CHUNK_SIDE * MAX_CHUNK_SIDE) by (nonlinear_arith)
                    requires
                        0 < self.size <= MAX_CHUNK_SIDE,
                ;
            }
            let n = (self.size * self.size * self.size) as usize;
            self.volume = Some(Volume::new(n));
        }
        let ghost pre = *self;
        match &mut self.volume {
            Some(v) => {
                v.type_id.layer.set(idx, val);
            },
            None => {},
        }
        proof {
            let size = self.size as int;
            let old_layer = pre.volume.unwrap().type_id.layer@;
            assert forall|a: int, b: int, c: int|
                #[trigger] self.voxel(a, b, c) == if a == x && b == y && c == z && old(
                    self,
                ).in_bounds(x as int, y as int, z as int) {
                    val
                } else {
                    old(self).voxel(a, b, c)
                } by {
                if self.in_bounds(a, b, c) && !(a == x && b == y && c == z) {
                    lemma_flat_index_bounds(a, b, c, size);
                    if flat_index(a, b, c, size, size) == idx {
                        lemma_flat_index_injective(a, b, c, x as int, y as int, z as int, size);
                    }
                }
            }
        }
    }

    /// The saved form of the chunk's voxels: `None` while unallocated, otherwise each voxel
    /// widened to `u32`, in flat order.
    pub open spec fn saved_form(self) -> Option<Seq<u32>> {
        match self.volume {
            Some(v) => Some(v.type_id.layer@.map_values(|t: u16| t as u32)),
            None => None,
        }
    }

    pub fn to_save(&self) -> (r: SaveChunk)
        requires
            self.wf(),
        ensures
            r.saved_form() == self.saved_form(),
    {
        match &self.volume {
            Some(v) => {
                let layer = &v.type_id.layer;
                let mut data: Vec<u32> = Vec::new();
                let mut i: usize = 0;
                while i < layer.len()
                    invariant
                        0 <= i <= layer.len(),
                        data@ == layer@.subrange(0, i as int).map_values(|t: u16| t as u32),
                    decreases layer.len() - i,
                {
                    data.push(layer[i] as u32);
                    i += 1;
                    proof {
                        assert(data@ =~= layer@.subrange(0, i as int).map_values(|t: u16| t as u32));
                    }
                }
                proof {
                    assert(layer@.subrange(0, layer@.len() as int) =~= layer@);
                }
                SaveChunk { voxel: Some(data) }
            },
            None => SaveChunk { voxel: None },
        }
    }

    /// Rebuilds a chunk of side `size` from its saved form; `None` when the data does not
    /// have `size^3` entries or holds a value above `u16::MAX`. The loaded chunk needs a
    /// mesh and matches what is saved.
    pub fn from_save(size: i32, save: &SaveChunk) -> (r: Option<Chunk>)
        requires
            0 < size <= MAX_CHUNK_SIDE,
        ensures
            match r {
                Some(c) => {
                    &&& loadable(size as int, save.saved_form())
                    &&& c.wf()
                    &&& c.size == size
                    &&& c.saved_form() == save.saved_form()
                    &&& c.dirty
                    &&& !c.save_dirty
                    &&& !c.entity_exist
                },
                None => !loadable(size as int, save.saved_form()),
            },
    {
        match &save.voxel {
            None => Some(Chunk { volume: None, dirty: true, save_dirty: false, entity_exist: false, size }),
            Some(data) => {
                proof {
                    assert(size * size <= MAX_CHUNK_SIDE * MAX_CHUNK_SIDE) by (nonlinear_arith)
                        requires
                            0 < size <= MAX_CHUNK_SIDE,
                    ;
                    assert(size * size * size <= MAX_CHUNK_SIDE * MAX_CHUNK_SIDE * MAX_CHUNK_SIDE) by (nonlinear_arith)
                        requires
                            0 < size <= MAX_CHUNK_SIDE,
                    ;
                }
                let n = (size * size * size) as usize;
                if data.len() != n {
                    return None;
                }
                let mut layer: Vec<u16> = Vec::new();
                let mut i: usize = 0;
                while i < data.len()
                    invariant
                        save.saved_form() == Some(data@),
                        data@.len() == size * size * size,
                        0 <= i <= data.len(),
                        layer@.len() == i,
                        forall|k: int| 0 <= k < i ==> #[trigger] data@[k] <= u16::MAX,
                        forall|k: int| 0 <= k < i ==> #[trigger] layer@[k] as u32 == data@[k],
                    decreases data.len() - i,
                {
                    if data[i] > 0xffff {
                        proof {
                            let d = save.saved_form().unwrap();
                            assert(d[i as int] > u16::MAX);
                        }
                        return None;
                    }
                    let ghost before = layer@;
                    let v = data[i];
                    layer.push(v as u16);
                    proof {
                        assert(layer@[i as int] == v as u16);
                        assert(v <= 0xffff);
                        assert((v as u16) as u32 == v);
                        assert forall|k: int| 0 <= k < i + 1 implies #[trigger] layer@[k] as u32 == data@[k] by {
                            if k < i {
                                assert(layer@[k] == before[k]);
                            }
                        }
                    }
                    i += 1;
                }
                let c = Chunk {
                    volume: Some(Volume { type_id: crate::layers::AttributeLayer { layer } }),
                    dirty: true,
                    save_dirty: false,
                    entity_exist: false,
                    size,
                };
                proof {
                    assert(c.saved_form().unwrap() =~= data@);
                }
                Some(c)
            },
        }
    }

    /// The voxel at local `(x, y, z)`, air when outside the chunk.
    pub fn get_voxel(&self, x: i32, y: i32, z: i32) -> (r: u16)
        requires
            self.wf(),
        ensures
            r == self.voxel(x as int, y as int, z as int),
    {
        if !(0 <= x && x < self.size && 0 <= y && y < self.size && 0 <= z && z < self.size) {
            return 0;
        }
        match &self.volume {
            Some(v) => {
                let idx = self.flat(x, y, z);
                v.type_id.layer[idx]
            },
            None => 0,
        }
    }
}

/// Saved data can be loaded into a chunk of side `size`.
pub open spec fn loadable(size: int, data: Option<Seq<u32>>) -> bool {
    match data {
        Some(d) => d.len() == size * size * size && forall|i: int| 0 <= i < d.len() ==> d[i]
            <= u16::MAX,
        None => true,
    }
}

impl SaveChunk {
    pub open spec fn saved_form(self) -> Option<Seq<u32>> {
        match self.voxel {
            Some(d) => Some(d@),
            None => None,
        }
    }
}

/// Saving a chunk and loading the result gives back a chunk of the same voxels: what any
/// well-formed chunk saves loads at its side, and a chunk loaded from the same saved form
/// is allocated exactly when the saved one is and agrees with it on every voxel.
pub proof fn lemma_save_round_trip(c: Chunk, d: Chunk)
    requires
        c.wf(),
        d.wf(),
        d.size == c.size,
        d.saved_form() == c.saved_form(),
    ensures
        loadable(c.size as int, c.saved_form()),
        d.volume.is_some() == c.volume.is_some(),
        forall|x: int, y: int, z: int| #[trigger] d.voxel(x, y, z) == c.voxel(x, y, z),
{
    if let Some(v) = c.volume {
        let w = d.volume.unwrap();
        let a = v.type_id.layer@;
        let b = w.type_id.layer@;
        assert forall|i: int| 0 <= i < a.len() implies a[i] == b[i] by {
            assert(a.map_values(|t: u16| t as u32)[i] == b.map_values(|t: u16| t as u32)[i]);
        }
        assert(a =~= b);
        let sa = a.map_values(|t: u16| t as u32);
        assert forall|i: int| 0 <= i < sa.len() implies #[trigger] sa[i] <= u16::MAX by {}
    }
}

/// Chunks keyed by chunk coordinates; a global voxel coordinate splits into the key
/// `coord >> log2(side)` and the local coordinate `coord & (side - 1)`, per axis.
pub struct VoxelMap {
    chunk_size: (i32, i32, i32),
    chunk_shift: (u32, u32, u32),
    chunk_list: BTreeMap<(i32, i32, i32), Chunk>,
}

impl VoxelMap {
    pub closed spec fn chunks(self) -> Map<(i32, i32, i32), Chunk> {
        self.chunk_list@
    }

    pub closed spec fn side(self) -> (i32, i32, i32) {
        self.chunk_size
    }

    /// Key of the chunk that holds global `(x, y, z)`.
    pub closed spec fn key_of(self, x: i32, y: i32, z: i32) -> (i32, i32, i32) {
        (x >> self.chunk_shift.0, y >> self.chunk_shift.1, z >> self.chunk_shift.2)
    }

    /// Position of global `(x, y, z)` inside its chunk.
    pub closed spec fn local_of(self, x: i32, y: i32, z: i32) -> (i32, i32, i32) {
        (
            x & ((self.chunk_size.0 - 1) as i32),
            y & ((self.chunk_size.1 - 1) as i32),
            z & ((self.chunk_size.2 - 1) as i32),
        )
    }

    /// Some chunk stores global `(x, y, z)`: its chunk exists and covers the position.
    pub open spec fn holds(self, x: i32, y: i32, z: i32) -> bool {
        let k = self.key_of(x, y, z);
        let l = self.local_of(x, y, z);
        self.chunks().contains_key(k) && self.chunks()[k].in_bounds(l.0 as int, l.1 as int, l.2 as int)
    }

    /// The voxel at global `(x, y, z)`; air where no chunk stores it.
    pub open spec fn voxel_at(self, x: i32, y: i32, z: i32) -> u16 {
        let k = self.key_of(x, y, z);
        let l = self.local_of(x, y, z);
        if self.chunks().contains_key(k) {
            self.chunks()[k].voxel(l.0 as int, l.1 as int, l.2 as int)
        } else {
            0
        }
    }

    pub closed spec fn wf(self) -> bool {
        &&& self.chunk_shift.0 <= 10 && self.chunk_size.0 == 1i32 << self.chunk_shift.0
        &&& self.chunk_shift.1 <= 10 && self.chunk_size.1 == 1i32 << self.chunk_shift.1
        &&& self.chunk_shift.2 <= 10 && self.chunk_size.2 == 1i32 << self.chunk_shift.2
        &&& forall|k: (i32, i32, i32)| #[trigger] self.chunk_list@.contains_key(k) ==> self.chunk_list@[k].wf()
    }

    /// `new` is `self` after writing `val` at global `(x, y, z)`: that voxel reads `val`
    /// if some chunk stores it, and every other voxel reads as before.
    pub open spec fn after_write(self, x: i32, y: i32, z: i32, val: u16, new: Self) -> bool {
        &&& new.side() == self.side()
        &&& new.chunks().dom() == self.chunks().dom()
        &&& forall|a: i32, b: i32, c: i32|
            #[trigger] new.voxel_at(a, b, c) == if a == x && b == y && c == z && self.holds(x, y, z) {
                val
            } else {
                self.voxel_at(a, b, c)
            }
    }

    /// On each axis the key and the local coordinate split a global coordinate by floor
    /// division by the chunk side: `key * side + local == coord` with `0 <= local < side`.
    pub proof fn lemma_key_and_local(self, x: i32, y: i32, z: i32)
        requires
            self.wf(),
        ensures
            self.key_of(x, y, z).0 * self.side().0 + self.local_of(x, y, z).0 == x,
            self.key_of(x, y, z).1 * self.side().1 + self.local_of(x, y, z).1 == y,
            self.key_of(x, y, z).2 * self.side().2 + self.local_of(x, y, z).2 == z,
            0 <= self.local_of(x, y, z).0 < self.side().0,
            0 <= self.local_of(x, y, z).1 < self.side().1,
            0 <= self.local_of(x, y, z).2 < self.side().2,
    {
        lemma_split_floor(x, self.chunk_shift.0);
        lemma_split_floor(y, self.chunk_shift.1);
        lemma_split_floor(z, self.chunk_shift.2);
    }

    /// Each chunk side is a power of two between 1 and [`MAX_CHUNK_SIDE`].
    pub proof fn lemma_side_bounds(self)
        requires
            self.wf(),
        ensures
            1 <= self.side().0 <= MAX_CHUNK_SIDE,
            1 <= self.side().1 <= MAX_CHUNK_SIDE,
            1 <= self.side().2 <= MAX_CHUNK_SIDE,
    {
        let (a, b, c) = self.chunk_shift;
        assert(a <= 10 ==> 1i32 <= (1i32 << a) <= 1024i32) by (bit_vector);
        assert(b <= 10 ==> 1i32 <= (1i32 << b) <= 1024i32) by (bit_vector);
        assert(c <= 10 ==> 1i32 <= (1i32 << c) <= 1024i32) by (bit_vector);
    }

    /// An empty map of chunks whose sides are `chunk_size`, each a power of two.
    pub fn new(chunk_size: (i32, i32, i32)) -> (r: Self)
        requires
            is_chunk_side(chunk_size.0),
            is_chunk_side(chunk_size.1),
            is_chunk_side(chunk_size.2),
        ensures
            r.wf(),
            r.side() == chunk_size,
            r.chunks() == Map::<(i32, i32, i32), Chunk>::empty(),
    {
        let chunk_shift = (log2_side(chunk_size.0), log2_side(chunk_size.1), log2_side(chunk_size.2));
        let chunk_list = BTreeMap::new();
        Self { chunk_size, chunk_shift, chunk_list }
    }

    pub fn chunk_size(&self) -> (r: (i32, i32, i32))
        ensures
            r == self.side(),
    {
        self.chunk_size
    }

    /// Inserts a chunk at chunk coordinates `(x, y, z)`, replacing any chunk there.
    pub fn add_chunk(&mut self, x: i32, y: i32, z: i32, chunk: Chunk)
        requires
            old(self).wf(),
            chunk.wf(),
        ensures
            final(self).wf(),
            final(self).side() == old(self).side(),
            final(self).chunks() == old(self).chunks().insert((x, y, z), chunk),
    {
        self.chunk_list.insert((x, y, z), chunk);
        proof {
            assert forall|k: (i32, i32, i32)| #[trigger] self.chunk_list@.contains_key(k) implies self.chunk_list@[k].wf() by {
                if k != (x, y, z) {
                    assert(old(self).chunk_list@.contains_key(k));
                }
            }
        }
    }

    /// Takes the chunk at chunk coordinates `(x, y, z)` out of the map.
    pub fn remove_chunk(&mut self, x: i32, y: i32, z: i32) -> (r: Option<Chunk>)
        requires
            old(self).wf(),
        ensures
            final(self).wf(),
            final(self).side() == old(self).side(),
            final(self).chunks() == old(self).chunks().remove((x, y, z)),
            r == (if old(self).chunks().contains_key((x, y, z)) {
                Some(old(self).chunks()[(x, y, z)])
            } else {
                None
            }),
    {
        let r = self.chunk_list.remove(&(x, y, z));
        proof {
            assert forall|k: (i32, i32, i32)| #[trigger] self.chunk_list@.contains_key(k) implies self.chunk_list@[k].wf() by {
                assert(old(self).chunk_list@.contains_key(k));
            }
        }
        r
    }

    /// The chunk at chunk coordinates `(x, y, z)`.
    pub fn get_chunk(&self, x: i32, y: i32, z: i32) -> (r: Option<&Chunk>)
        requires
            self.wf(),
        ensures
            r == (if self.chunks().contains_key((x, y, z)) {
                Some(&self.chunks()[(x, y, z)])
            } else {
                None
            }),
    {
        self.chunk_list.get(&(x, y, z))
    }

    fn split(&self, x: i32, y: i32, z: i32) -> (r: ((i32, i32, i32), (i32, i32, i32)))
        requires
            self.wf(),
        ensures
            r.0 == self.key_of(x, y, z),
            r.1 == self.local_of(x, y, z),
    {
        let key = (x >> self.chunk_shift.0, y >> self.chunk_shift.1, z >> self.chunk_shift.2);
        proof {
            let (a, b, c) = (self.chunk_shift.0, self.chunk_shift.1, self.chunk_shift.2);
            assert(a <= 10 ==> (1i32 << a) >= 1i32) by (bit_vector);
            assert(b <= 10 ==> (1i32 << b) >= 1i32) by (bit_vector);
            assert(c <= 10 ==> (1i32 << c) >= 1i32) by (bit_vector);
        }
        let local = (
            x & (self.chunk_size.0 - 1),
            y & (self.chunk_size.1 - 1),
            z & (self.chunk_size.2 - 1),
        );
        (key, local)
    }

    /// The voxel at global `(x, y, z)`; air where no chunk stores it.
    pub fn get_voxel(&self, x: i32, y: i32, z: i32) -> (r: u16)
        requires
            self.wf(),
        ensures
            r == self.voxel_at(x, y, z),
    {
        let (key, local) = self.split(x, y, z);
        match self.chunk_list.get(&key) {
            Some(c) => c.get_voxel(local.0, local.1, local.2),
            None => 0,
        }
    }

    /// Writes `val` at global `(x, y, z)`, marking the chunk for meshing and saving; the
    /// write is dropped when no chunk stores that position.
    pub fn set_voxel(&mut self, x: i32, y: i32, z: i32, val: u16)
        requires
            old(self).wf(),
        ensures
            final(self).wf(),
            old(self).after_write(x, y, z, val, *final(self)),
            ({
                let k = old(self).key_of(x, y, z);
                let l = old(self).local_of(x, y, z);
                if old(self).chunks().contains_key(k) {
                    &&& final(self).chunks() == old(self).chunks().insert(k, final(self).chunks()[k])
                    &&& old(self).chunks()[k].written(l.0 as int, l.1 as int, l.2 as int, val, final(self).chunks()[k])
                } else {
                    final(self).chunks() == old(self).chunks()
                }
            }),
    {
        let (key, local) = self.split(x, y, z);
        match self.chunk_list.remove(&key) {
            Some(mut c) => {
                proof {
                    assert(old(self).chunk_list@.contains_key(key));
                }
                c.set_voxel(local.0, local.1, local.2, val);
                self.chunk_list.insert(key, c);
                proof {
                    assert(self.chunk_list@ =~= old(self).chunk_list@.insert(key, c));
                    assert forall|k: (i32, i32, i32)| #[trigger] self.chunk_list@.contains_key(k) implies self.chunk_list@[k].wf() by {
                        if k != key {
                            assert(old(self).chunk_list@.contains_key(k));
                        }
                    }
                    self.lemma_write_frame(*old(self), x, y, z, val);
                }
            },
            None => {
                proof {
                    assert(self.chunk_list@ =~= old(self).chunk_list@);
                }
            },
        }
    }

    proof fn lemma_write_frame(self, pre: Self, x: i32, y: i32, z: i32, val: u16)
        requires
            pre.wf(),
            self.chunk_size == pre.chunk_size,
            self.chunk_shift == pre.chunk_shift,
            pre.chunk_list@.contains_key(pre.key_of(x, y, z)),
            self.chunk_list@ == pre.chunk_list@.insert(pre.key_of(x, y, z), self.chunk_list@[pre.key_of(x, y, z)]),
            ({
                let l = pre.local_of(x, y, z);
                pre.chunk_list@[pre.key_of(x, y, z)].written(l.0 as int, l.1 as int, l.2 as int, val, self.chunk_list@[pre.key_of(x, y, z)])
            }),
        ensures
            pre.after_write(x, y, z, val, self),
    {
        let key = pre.key_of(x, y, z);
        let l = pre.local_of(x, y, z);
        assert(self.chunks().dom() =~= pre.chunks().dom());
        assert forall|a: i32, b: i32, c: i32|
            #[trigger] self.voxel_at(a, b, c) == if a == x && b == y && c == z && pre.holds(x, y, z) {
                val
            } else {
                pre.voxel_at(a, b, c)
            } by {
            let k2 = pre.key_of(a, b, c);
            let l2 = pre.local_of(a, b, c);
            assert(self.key_of(a, b, c) == k2);
            assert(self.local_of(a, b, c) == l2);
            if k2 == key && l2 == l && !(a == x && b == y && c == z) {
                lemma_split_injective(a, x, pre.chunk_shift.0);
                lemma_split_injective(b, y, pre.chunk_shift.1);
                lemma_split_injective(c, z, pre.chunk_shift.2);
            }
        }
    }
}

/// A write through the map is read back: once `set_voxel(x, y, z, val)` has run on a map
/// that stores `(x, y, z)`, `get_voxel(x, y, z)` returns `val`.
pub proof fn lemma_write_then_read(m: VoxelMap, after: VoxelMap, x: i32, y: i32, z: i32, val: u16)
    requires
        m.wf(),
        m.after_write(x, y, z, val, after),
        m.holds(x, y, z),
    ensures
        after.voxel_at(x, y, z) == val,
{
    assert(after.voxel_at(x, y, z) == val);
}

/// Where the chunk that would hold `(x, y, z)` does not exist, the map reads air.
pub proof fn lemma_missing_chunk_reads_air(m: VoxelMap, x: i32, y: i32, z: i32)
    requires
        !m.chunks().contains_key(m.key_of(x, y, z)),
    ensures
        m.voxel_at(x, y, z) == 0,
{
}

} // verus!
