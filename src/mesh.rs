use vstd::prelude::*;

verus! {

/// Placement record of one sub-mesh: where its vertices and indices sit in the shared buffers.
#[derive(Clone, Copy, Debug, PartialEq, Eq, Structural)]
pub struct SubMeshHandel {
    pub vertex_start: u32,
    pub vertex_length: u32,
    pub index_start: u32,
    pub index_length: u32,
}

/// The overlap test of the allocator on half-open ranges `[w_start, w_end)` and
/// `[r_start, r_end)`: a boundary of `w` falls inside `r`, or `w` contains `r`.
pub open spec fn ranges_overlap(w_start: int, w_end: int, r_start: int, r_end: int) -> bool {
    ||| (w_start >= r_start && w_start < r_end)
    ||| (w_end > r_start && w_end <= r_end)
    ||| (w_start <= r_start && w_end >= r_end)
}

/// Whatever sequence of placements, updates and removals a buffer went through, no two of
/// its live sub-meshes overlap, neither in the vertex buffer nor in the index buffer.
pub proof fn lemma_live_handels_apart(m: SharedMesh, a: int, b: int)
    requires
        m.wf(),
        m.is_live(a),
        m.is_live(b),
        a != b,
    ensures
        !ranges_overlap(
            m.record(a).vertex_start as int,
            m.record(a).vertex_start + m.record(a).vertex_length,
            m.record(b).vertex_start as int,
            m.record(b).vertex_start + m.record(b).vertex_length,
        ),
        !ranges_overlap(
            m.record(a).index_start as int,
            m.record(a).index_start + m.record(a).index_length,
            m.record(b).index_start as int,
            m.record(b).index_start + m.record(b).index_length,
        ),
{
    m.lemma_wf_apart(a, b);
}

/// On non-empty ranges the overlap test is plain intersection.
pub proof fn lemma_overlap_nonempty(w_start: int, w_end: int, r_start: int, r_end: int)
    requires
        w_start < w_end,
        r_start < r_end,
    ensures
        ranges_overlap(w_start, w_end, r_start, r_end) <==> (w_start < r_end && r_start < w_end),
{
}

proof fn lemma_insert_index<A>(s: Seq<A>, p: int, e: A, k: int)
    requires
        0 <= p <= s.len(),
        0 <= k <= s.len(),
    ensures
        s.insert(p, e)[k] == if k < p {
            s[k]
        } else if k == p {
            e
        } else {
            s[k - 1]
        },
{
    s.insert_ensures(p, e);
    if k > p {
        assert(s.insert(p, e)[(k - 1) + 1] == s[k - 1]);
    }
}

fn overlap_wide(w_start: u64, w_end: u64, r_start: u64, r_end: u64) -> (r: bool)
    ensures
        r == ranges_overlap(w_start as int, w_end as int, r_start as int, r_end as int),
{
    (w_start >= r_start && w_start < r_end) || (w_end > r_start && w_end <= r_end) || (w_start
        <= r_start && w_end >= r_end)
}

impl SubMeshHandel {
    pub fn overlap(w_start: u32, w_end: u32, r_start: u32, r_end: u32) -> (r: bool)
        ensures
            r == ranges_overlap(w_start as int, w_end as int, r_start as int, r_end as int),
    {
        if w_start >= r_start && w_start < r_end {
            // w starts inside r
            true
        } else if w_end > r_start && w_end <= r_end {
            // w ends inside r
            true
        } else if w_start <= r_start && w_end >= r_end {
            // r lies inside w
            true
        } else {
            false
        }
    }

    /// Start of the vertex range (`vertex`) or of the index range (`!vertex`).
    pub open spec fn start(self, vertex: bool) -> int {
        if vertex {
            self.vertex_start as int
        } else {
            self.index_start as int
        }
    }

    pub open spec fn length(self, vertex: bool) -> int {
        if vertex {
            self.vertex_length as int
        } else {
            self.index_length as int
        }
    }

    pub open spec fn end(self, vertex: bool) -> int {
        self.start(vertex) + self.length(vertex)
    }

    fn range_of(&self, vertex: bool) -> (r: (u32, u32))
        ensures
            r.0 as int == self.start(vertex),
            r.1 as int == self.length(vertex),
    {
        if vertex {
            (self.vertex_start, self.vertex_length)
        } else {
            (self.index_start, self.index_length)
        }
    }
}

/// Why the allocator refused a request.
#[derive(Clone, Copy, Debug, PartialEq, Eq, Structural)]
pub enum AllocError {
    /// The mesh has no vertices or no indices: there is nothing to place.
    EmptyMesh,
    /// No free range of the shared vertex or index buffer holds the mesh.
    BufferFull,
    /// The handle names no live sub-mesh of this buffer.
    UnknownHandle,
}

/// One large vertex buffer and one large index buffer shared by many sub-meshes.
///
/// Sub-meshes are kept in an arena: a handle is the position of its record, and stays
/// valid for reading after removal. Only live records occupy buffer space.
pub struct SharedMesh {
    name: String,
    vertex_size: usize,
    vertex_capacity: u32,
    index_capacity: u32,
    handles: Vec<SubMeshHandel>,
    live: Vec<bool>,
    flat_vertex: u32,
    flat_index: u32,
}

impl SharedMesh {
    pub closed spec fn label(self) -> String {
        self.name
    }

    pub fn name(&self) -> (r: &String)
        ensures
            *r == self.label(),
    {
        &self.name
    }

    pub closed spec fn record_count(self) -> nat {
        self.handles@.len()
    }

    pub closed spec fn record(self, id: int) -> SubMeshHandel {
        self.handles@[id]
    }

    pub closed spec fn is_live(self, id: int) -> bool {
        0 <= id < self.handles@.len() && self.live@[id]
    }

    /// Only recorded handles can be live.
    pub proof fn lemma_live_is_recorded(self, id: int)
        ensures
            self.is_live(id) ==> 0 <= id < self.record_count(),
    {
    }

    /// Size in bytes of one vertex.
    pub closed spec fn stride(self) -> nat {
        self.vertex_size as nat
    }

    /// Capacity in elements of the vertex buffer (`vertex`) or of the index buffer.
    pub closed spec fn capacity(self, vertex: bool) -> nat {
        if vertex {
            self.vertex_capacity as nat
        } else {
            self.index_capacity as nat
        }
    }

    /// Elements already handed out by the debug append, per buffer.
    pub closed spec fn flat_used(self, vertex: bool) -> nat {
        if vertex {
            self.flat_vertex as nat
        } else {
            self.flat_index as nat
        }
    }

    /// `len` elements placed at `s` would not overlap any live range of that buffer.
    pub open spec fn fits(self, vertex: bool, s: int, len: int) -> bool {
        forall|id: int|
            #![trigger self.is_live(id)]
            self.is_live(id) ==> !ranges_overlap(
                s,
                s + len,
                self.record(id).start(vertex),
                self.record(id).end(vertex),
            )
    }

    /// `s` is the lowest offset at which `len` elements fit.
    pub open spec fn is_lowest_free(self, vertex: bool, s: int, len: int) -> bool {
        &&& 0 <= s
        &&& self.fits(vertex, s, len)
        &&& forall|q: int| 0 <= q < s ==> !#[trigger] self.fits(vertex, q, len)
    }

    /// Live sub-meshes are non-empty, inside the buffers, and pairwise apart.
    pub closed spec fn wf(self) -> bool {
        &&& self.handles@.len() == self.live@.len()
        &&& self.vertex_capacity <= i32::MAX
        &&& self.vertex_size as nat * self.vertex_capacity as nat <= u64::MAX
        &&& forall|id: int|
            #![trigger self.is_live(id)]
            self.is_live(id) ==> {
                &&& self.record(id).vertex_length > 0
                &&& self.record(id).index_length > 0
                &&& self.record(id).end(true) <= self.vertex_capacity
                &&& self.record(id).end(false) <= self.index_capacity
            }
        &&& forall|a: int, b: int|
            #![trigger self.is_live(a), self.is_live(b)]
            self.is_live(a) && self.is_live(b) && a != b ==> self.apart(a, b)
    }

    pub open spec fn apart(self, a: int, b: int) -> bool {
        &&& !ranges_overlap(
            self.record(a).start(true),
            self.record(a).end(true),
            self.record(b).start(true),
            self.record(b).end(true),
        )
        &&& !ranges_overlap(
            self.record(a).start(false),
            self.record(a).end(false),
            self.record(b).start(false),
            self.record(b).end(false),
        )
    }

    /// A buffer pair for `buffer_sizes.0` vertices of `vertex_size` bytes each and
    /// `buffer_sizes.1` indices.
    pub fn new(name: String, vertex_size: usize, buffer_sizes: (usize, usize)) -> (r: Self)
        requires
            buffer_sizes.0 <= i32::MAX,
            buffer_sizes.1 <= u32::MAX,
            vertex_size as nat * buffer_sizes.0 as nat <= u64::MAX,
        ensures
            r.wf(),
            r.label() == name,
            r.stride() == vertex_size,
            r.capacity(true) == buffer_sizes.0,
            r.capacity(false) == buffer_sizes.1,
            r.record_count() == 0,
            forall|id: int| !#[trigger] r.is_live(id),
            r.flat_used(true) == 0,
            r.flat_used(false) == 0,
    {
        SharedMesh {
            name,
            vertex_size,
            vertex_capacity: buffer_sizes.0 as u32,
            index_capacity: buffer_sizes.1 as u32,
            handles: Vec::new(),
            live: Vec::new(),
            flat_vertex: 0,
            flat_index: 0,
        }
    }

    /// Name, stride, capacities and debug-append cursors agree.
    pub open spec fn same_config(self, other: Self) -> bool {
        &&& self.label() == other.label()
        &&& self.stride() == other.stride()
        &&& self.capacity(true) == other.capacity(true)
        &&& self.capacity(false) == other.capacity(false)
        &&& self.flat_used(true) == other.flat_used(true)
        &&& self.flat_used(false) == other.flat_used(false)
    }

    /// Nothing observable differs.
    pub open spec fn same_state(self, other: Self) -> bool {
        &&& self.same_config(other)
        &&& self.record_count() == other.record_count()
        &&& forall|j: int| 0 <= j < self.record_count() ==> #[trigger] self.record(j) == other.record(j)
        &&& forall|j: int| #[trigger] self.is_live(j) == other.is_live(j)
    }

    /// `len` elements at `s` would overlap no live range other than that of `skip`.
    pub open spec fn fits_without(self, vertex: bool, s: int, len: int, skip: int) -> bool {
        forall|id: int|
            #![trigger self.is_live(id)]
            self.is_live(id) && id != skip ==> !ranges_overlap(
                s,
                s + len,
                self.record(id).start(vertex),
                self.record(id).end(vertex),
            )
    }

    /// `s` is the lowest offset at which `len` elements fit once `skip` is taken out.
    pub open spec fn is_lowest_free_without(self, vertex: bool, s: int, len: int, skip: int) -> bool {
        &&& 0 <= s
        &&& self.fits_without(vertex, s, len, skip)
        &&& forall|q: int| 0 <= q < s ==> !#[trigger] self.fits_without(vertex, q, len, skip)
    }

    proof fn lemma_lowest_unique(self, vertex: bool, a: int, b: int, len: int)
        requires
            self.is_lowest_free(vertex, a, len),
            self.is_lowest_free(vertex, b, len),
        ensures
            a == b,
    {
        if a < b {
            assert(!self.fits(vertex, a, len));
        } else if b < a {
            assert(!self.fits(vertex, b, len));
        }
    }

    proof fn lemma_lowest_without_unique(self, vertex: bool, a: int, b: int, len: int, skip: int)
        requires
            self.is_lowest_free_without(vertex, a, len, skip),
            self.is_lowest_free_without(vertex, b, len, skip),
        ensures
            a == b,
    {
        if a < b {
            assert(!self.fits_without(vertex, a, len, skip));
        } else if b < a {
            assert(!self.fits_without(vertex, b, len, skip));
        }
    }

    pub fn is_live_handel(&self, id: usize) -> (r: bool)
        requires
            self.wf(),
        ensures
            r == self.is_live(id as int),
    {
        id < self.live.len() && self.live[id]
    }

    /// The current record of a handle; a removed handle keeps its last placement.
    pub fn handel(&self, id: usize) -> (r: Option<SubMeshHandel>)
        requires
            self.wf(),
        ensures
            r == (if id < self.record_count() {
                Some(self.record(id as int))
            } else {
                None
            }),
    {
        if id < self.handles.len() {
            Some(self.handles[id])
        } else {
            None
        }
    }

    /// Places a new sub-mesh of `vertex_buffer.len()` vertices and `index_buffer.len()`
    /// indices at the lowest free offsets of the two buffers, and returns its handle.
    pub fn get_handel<T>(&mut self, vertex_buffer: &[T], index_buffer: &[u32]) -> (r: Result<
        usize,
        AllocError,
    >)
        requires
            old(self).wf(),
        ensures
            final(self).wf(),
            match r {
                Ok(id) => {
                    &&& vertex_buffer@.len() > 0 && index_buffer@.len() > 0
                    &&& id == old(self).record_count()
                    &&& final(self).same_config(*old(self))
                    &&& final(self).record_count() == old(self).record_count() + 1
                    &&& final(self).is_live(id as int)
                    &&& final(self).record(id as int).vertex_length == vertex_buffer@.len()
                    &&& final(self).record(id as int).index_length == index_buffer@.len()
                    &&& old(self).is_lowest_free(
                        true,
                        final(self).record(id as int).vertex_start as int,
                        vertex_buffer@.len() as int,
                    )
                    &&& old(self).is_lowest_free(
                        false,
                        final(self).record(id as int).index_start as int,
                        index_buffer@.len() as int,
                    )
                    &&& forall|j: int|
                        0 <= j < old(self).record_count() ==> final(self).record(j) == old(
                            self,
                        ).record(j) && final(self).is_live(j) == old(self).is_live(j)
                },
                Err(AllocError::EmptyMesh) => {
                    &&& vertex_buffer@.len() == 0 || index_buffer@.len() == 0
                    &&& final(self).same_state(*old(self))
                },
                Err(AllocError::BufferFull) => {
                    &&& vertex_buffer@.len() > 0 && index_buffer@.len() > 0
                    &&& !exists|sv: int, si: int|
                        {
                            &&& old(self).is_lowest_free(true, sv, vertex_buffer@.len() as int)
                            &&& old(self).is_lowest_free(false, si, index_buffer@.len() as int)
                            &&& sv + vertex_buffer@.len() <= old(self).capacity(true)
                            &&& si + index_buffer@.len() <= old(self).capacity(false)
                        }
                    &&& final(self).same_state(*old(self))
                },
                Err(AllocError::UnknownHandle) => false,
            },
    {
        let lv = vertex_buffer.len();
        let li = index_buffer.len();
        if lv == 0 || li == 0 {
            return Err(AllocError::EmptyMesh);
        }
        if lv > self.vertex_capacity as usize || li > self.index_capacity as usize {
            return Err(AllocError::BufferFull);
        }
        let sv = self.lowest_free(true, lv as u32);
        let si = self.lowest_free(false, li as u32);
        if sv as u64 + lv as u64 > self.vertex_capacity as u64 || si as u64 + li as u64
            > self.index_capacity as u64 {
            proof {
                assert forall|a: int, b: int|
                    #![auto]
                    old(self).is_lowest_free(true, a, lv as int) && old(self).is_lowest_free(
                        false,
                        b,
                        li as int,
                    ) implies !(a + lv <= old(self).capacity(true) && b + li <= old(
                        self,
                    ).capacity(false)) by {
                    self.lemma_lowest_unique(true, a, sv as int, lv as int);
                    self.lemma_lowest_unique(false, b, si as int, li as int);
                }
            }
            return Err(AllocError::BufferFull);
        }
        let h = SubMeshHandel {
            vertex_start: sv,
            vertex_length: lv as u32,
            index_start: si,
            index_length: li as u32,
        };
        let id = self.handles.len();
        self.handles.push(h);
        self.live.push(true);
        proof {
            let pre = *old(self);
            assert forall|j: int| 0 <= j < pre.record_count() implies self.record(j) == pre.record(
                j,
            ) && self.is_live(j) == pre.is_live(j) by {}
            assert forall|a: int, b: int|
                #![trigger self.is_live(a), self.is_live(b)]
                self.is_live(a) && self.is_live(b) && a != b implies self.apart(a, b) by {
                if a == id {
                    assert(pre.is_live(b));
                    lemma_overlap_nonempty(sv as int, sv + lv, self.record(b).start(true), self.record(b).end(true));
                    lemma_overlap_nonempty(si as int, si + li, self.record(b).start(false), self.record(b).end(false));
                } else if b == id {
                    assert(pre.is_live(a));
                    lemma_overlap_nonempty(sv as int, sv + lv, self.record(a).start(true), self.record(a).end(true));
                    lemma_overlap_nonempty(si as int, si + li, self.record(a).start(false), self.record(a).end(false));
                    lemma_overlap_nonempty(self.record(a).start(true), self.record(a).end(true), sv as int, sv + lv);
                    lemma_overlap_nonempty(self.record(a).start(false), self.record(a).end(false), si as int, si + li);
                } else {
                    assert(pre.is_live(a) && pre.is_live(b));
                    assert(pre.apart(a, b));
                }
            }
            assert forall|j: int| #[trigger] self.is_live(j) implies {
                &&& self.record(j).vertex_length > 0
                &&& self.record(j).index_length > 0
                &&& self.record(j).end(true) <= self.vertex_capacity
                &&& self.record(j).end(false) <= self.index_capacity
            } by {
                if j != id {
                    assert(pre.is_live(j));
                }
            }
        }
        Ok(id)
    }

    /// Frees the ranges of a live sub-mesh; returns whether there was one to free.
    pub fn remove_handel(&mut self, id: usize) -> (r: bool)
        requires
            old(self).wf(),
        ensures
            final(self).wf(),
            r == old(self).is_live(id as int),
            final(self).same_config(*old(self)),
            final(self).record_count() == old(self).record_count(),
            forall|j: int| #![trigger final(self).record(j)] final(self).record(j) == old(self).record(j),
            forall|j: int|
                #![trigger final(self).is_live(j)]
                final(self).is_live(j) == (old(self).is_live(j) && j != id),
    {
        if id < self.live.len() && self.live[id] {
            self.live.set(id, false);
            proof {
                let pre = *old(self);
                assert forall|a: int, b: int|
                    #![trigger self.is_live(a), self.is_live(b)]
                    self.is_live(a) && self.is_live(b) && a != b implies self.apart(a, b) by {
                    assert(pre.is_live(a) && pre.is_live(b));
                }
                assert forall|j: int| #[trigger] self.is_live(j) implies {
                    &&& self.record(j).vertex_length > 0
                    &&& self.record(j).index_length > 0
                    &&& self.record(j).end(true) <= self.vertex_capacity
                    &&& self.record(j).end(false) <= self.index_capacity
                } by {
                    assert(pre.is_live(j));
                }
            }
            true
        } else {
            false
        }
    }

    /// Re-places a live sub-mesh for new data of `vertex_buffer.len()` vertices and
    /// `index_buffer.len()` indices: its old ranges are freed and it takes the lowest free
    /// offsets, keeping its handle. On any error nothing changes.
    pub fn update_model<T>(&mut self, id: usize, vertex_buffer: &[T], index_buffer: &[u32]) -> (r:
        Result<(), AllocError>)
        requires
            old(self).wf(),
        ensures
            final(self).wf(),
            match r {
                Ok(()) => {
                    &&& old(self).is_live(id as int)
                    &&& vertex_buffer@.len() > 0 && index_buffer@.len() > 0
                    &&& final(self).same_config(*old(self))
                    &&& final(self).record_count() == old(self).record_count()
                    &&& final(self).is_live(id as int)
                    &&& final(self).record(id as int).vertex_length == vertex_buffer@.len()
                    &&& final(self).record(id as int).index_length == index_buffer@.len()
                    &&& old(self).is_lowest_free_without(
                        true,
                        final(self).record(id as int).vertex_start as int,
                        vertex_buffer@.len() as int,
                        id as int,
                    )
                    &&& old(self).is_lowest_free_without(
                        false,
                        final(self).record(id as int).index_start as int,
                        index_buffer@.len() as int,
                        id as int,
                    )
                    &&& forall|j: int|
                        0 <= j < old(self).record_count() && j != id ==> final(self).record(j)
                            == old(self).record(j) && final(self).is_live(j) == old(self).is_live(j)
                },
                Err(AllocError::UnknownHandle) => {
                    &&& !old(self).is_live(id as int)
                    &&& final(self).same_state(*old(self))
                },
                Err(AllocError::EmptyMesh) => {
                    &&& old(self).is_live(id as int)
                    &&& vertex_buffer@.len() == 0 || index_buffer@.len() == 0
                    &&& final(self).same_state(*old(self))
                },
                Err(AllocError::BufferFull) => {
                    &&& old(self).is_live(id as int)
                    &&& vertex_buffer@.len() > 0 && index_buffer@.len() > 0
                    &&& !exists|sv: int, si: int|
                        {
                            &&& old(self).is_lowest_free_without(
                                true,
                                sv,
                                vertex_buffer@.len() as int,
                                id as int,
                            )
                            &&& old(self).is_lowest_free_without(
                                false,
                                si,
                                index_buffer@.len() as int,
                                id as int,
                            )
                            &&& sv + vertex_buffer@.len() <= old(self).capacity(true)
                            &&& si + index_buffer@.len() <= old(self).capacity(false)
                        }
                    &&& final(self).same_state(*old(self))
                },
            },
    {
        if !(id < self.live.len() && self.live[id]) {
            return Err(AllocError::UnknownHandle);
        }
        let lv = vertex_buffer.len();
        let li = index_buffer.len();
        if lv == 0 || li == 0 {
            return Err(AllocError::EmptyMesh);
        }
        if lv > self.vertex_capacity as usize || li > self.index_capacity as usize {
            return Err(AllocError::BufferFull);
        }
        let ghost pre = *self;
        let ghost pre_live = self.live@;
        self.live.set(id, false);
        proof {
            assert forall|a: int, b: int|
                #![trigger self.is_live(a), self.is_live(b)]
                self.is_live(a) && self.is_live(b) && a != b implies self.apart(a, b) by {
                assert(pre.is_live(a) && pre.is_live(b));
            }
            assert forall|j: int| #[trigger] self.is_live(j) implies {
                &&& self.record(j).vertex_length > 0
                &&& self.record(j).index_length > 0
                &&& self.record(j).end(true) <= self.vertex_capacity
                &&& self.record(j).end(false) <= self.index_capacity
            } by {
                assert(pre.is_live(j));
            }
            assert forall|v: bool, q: int, n: int|
                #![trigger self.fits(v, q, n)]
                #![trigger pre.fits_without(v, q, n, id as int)]
                self.fits(v, q, n) == pre.fits_without(v, q, n, id as int) by {
                if self.fits(v, q, n) {
                    assert forall|j: int| #[trigger] pre.is_live(j) && j != id implies !ranges_overlap(
                        q,
                        q + n,
                        pre.record(j).start(v),
                        pre.record(j).end(v),
                    ) by {
                        assert(self.is_live(j));
                    }
                }
                if pre.fits_without(v, q, n, id as int) {
                    assert forall|j: int| #[trigger] self.is_live(j) implies !ranges_overlap(
                        q,
                        q + n,
                        self.record(j).start(v),
                        self.record(j).end(v),
                    ) by {
                        assert(pre.is_live(j));
                    }
                }
            }
        }
        let sv = self.lowest_free(true, lv as u32);
        let si = self.lowest_free(false, li as u32);
        if sv as u64 + lv as u64 > self.vertex_capacity as u64 || si as u64 + li as u64
            > self.index_capacity as u64 {
            self.live.set(id, true);
            proof {
                assert(self.live@ =~= pre_live);
                assert(self.same_state(pre));
                assert forall|j: int| #![auto] self.is_live(j) == pre.is_live(j) by {}
                assert forall|j: int| #![auto] self.record(j) == pre.record(j) by {}
                assert forall|a: int, b: int|
                    #![trigger self.is_live(a), self.is_live(b)]
                    self.is_live(a) && self.is_live(b) && a != b implies self.apart(a, b) by {
                    assert(pre.is_live(a) && pre.is_live(b));
                    assert(pre.apart(a, b));
                }
                assert forall|j: int| #[trigger] self.is_live(j) implies {
                    &&& self.record(j).vertex_length > 0
                    &&& self.record(j).index_length > 0
                    &&& self.record(j).end(true) <= self.vertex_capacity
                    &&& self.record(j).end(false) <= self.index_capacity
                } by {
                    assert(pre.is_live(j));
                }
                assert forall|a: int, b: int|
                    #![auto]
                    pre.is_lowest_free_without(true, a, lv as int, id as int)
                        && pre.is_lowest_free_without(false, b, li as int, id as int) implies !(a
                        + lv <= pre.capacity(true) && b + li <= pre.capacity(false)) by {
                    pre.lemma_lowest_without_unique(true, a, sv as int, lv as int, id as int);
                    pre.lemma_lowest_without_unique(false, b, si as int, li as int, id as int);
                }
            }
            return Err(AllocError::BufferFull);
        }
        let h = SubMeshHandel {
            vertex_start: sv,
            vertex_length: lv as u32,
            index_start: si,
            index_length: li as u32,
        };
        let ghost mid = *self;
        self.handles.set(id, h);
        self.live.set(id, true);
        proof {
            assert forall|a: int, b: int|
                #![trigger self.is_live(a), self.is_live(b)]
                self.is_live(a) && self.is_live(b) && a != b implies self.apart(a, b) by {
                if a == id {
                    assert(mid.is_live(b));
                    lemma_overlap_nonempty(sv as int, sv + lv, self.record(b).start(true), self.record(b).end(true));
                    lemma_overlap_nonempty(si as int, si + li, self.record(b).start(false), self.record(b).end(false));
                } else if b == id {
                    assert(mid.is_live(a));
                    lemma_overlap_nonempty(sv as int, sv + lv, self.record(a).start(true), self.record(a).end(true));
                    lemma_overlap_nonempty(si as int, si + li, self.record(a).start(false), self.record(a).end(false));
                    lemma_overlap_nonempty(self.record(a).start(true), self.record(a).end(true), sv as int, sv + lv);
                    lemma_overlap_nonempty(self.record(a).start(false), self.record(a).end(false), si as int, si + li);
                } else {
                    assert(mid.is_live(a) && mid.is_live(b));
                    assert(mid.apart(a, b));
                }
            }
            assert forall|j: int| #[trigger] self.is_live(j) implies {
                &&& self.record(j).vertex_length > 0
                &&& self.record(j).index_length > 0
                &&& self.record(j).end(true) <= self.vertex_capacity
                &&& self.record(j).end(false) <= self.index_capacity
            } by {
                if j != id {
                    assert(mid.is_live(j));
                }
            }
            assert forall|j: int|
                0 <= j < pre.record_count() && j != id implies self.record(j) == pre.record(j)
                && self.is_live(j) == pre.is_live(j) by {}
        }
        Ok(())
    }

    /// Byte offset in the vertex buffer at which the data of a handle is written.
    pub fn vertex_byte_offset(&self, id: usize) -> (r: Option<u64>)
        requires
            self.wf(),
        ensures
            r == (if self.is_live(id as int) {
                Some((self.record(id as int).vertex_start * self.stride()) as u64)
            } else {
                None
            }),
    {
        if id < self.live.len() && self.live[id] {
            let start = self.handles[id].vertex_start;
            proof {
                assert(self.is_live(id as int));
                assert(start as nat * self.vertex_size as nat <= self.vertex_size as nat
                    * self.vertex_capacity as nat) by (nonlinear_arith)
                    requires
                        start <= self.vertex_capacity,
                ;
            }
            Some(start as u64 * self.vertex_size as u64)
        } else {
            None
        }
    }

    /// Byte offset in the index buffer at which the indices of a handle are written.
    pub fn index_byte_offset(&self, id: usize) -> (r: Option<u64>)
        requires
            self.wf(),
        ensures
            r == (if self.is_live(id as int) {
                Some((self.record(id as int).index_start * 4) as u64)
            } else {
                None
            }),
    {
        if id < self.live.len() && self.live[id] {
            Some(self.handles[id].index_start as u64 * 4)
        } else {
            None
        }
    }

    /// Size in bytes of one vertex.
    pub fn vertex_size(&self) -> (r: usize)
        ensures
            r == self.stride(),
    {
        self.vertex_size
    }

    /// Size in bytes of the vertex buffer and of the index buffer.
    pub fn buffer_bytes(&self) -> (r: (u64, u64))
        requires
            self.wf(),
        ensures
            r.0 == self.capacity(true) * self.stride(),
            r.1 == self.capacity(false) * 4,
    {
        proof {
            assert(self.vertex_size as nat * self.vertex_capacity as nat == self.vertex_capacity
                as nat * self.vertex_size as nat) by (nonlinear_arith);
        }
        (self.vertex_capacity as u64 * self.vertex_size as u64, self.index_capacity as u64 * 4)
    }

    /// The handles of the live sub-meshes, in increasing order.
    pub fn live_handels(&self) -> (r: Vec<usize>)
        requires
            self.wf(),
        ensures
            forall|k: int| 0 <= k < r.len() ==> self.is_live(#[trigger] r@[k] as int),
            forall|a: int, b: int| 0 <= a < b < r.len() ==> r@[a] < r@[b],
            forall|id: int| #[trigger] self.is_live(id) ==> r@.contains(id as usize),
    {
        let mut r: Vec<usize> = Vec::new();
        let mut i: usize = 0;
        while i < self.live.len()
            invariant
                self.wf(),
                0 <= i <= self.live.len(),
                forall|k: int| 0 <= k < r.len() ==> self.is_live(#[trigger] r@[k] as int) && r@[k] < i,
                forall|a: int, b: int| 0 <= a < b < r.len() ==> r@[a] < r@[b],
                forall|id: int| 0 <= id < i && #[trigger] self.is_live(id) ==> r@.contains(id as usize),
            decreases self.live.len() - i,
        {
            if self.live[i] {
                let ghost before = r@;
                r.push(i);
                proof {
                    assert(r@[r.len() - 1] == i);
                    assert forall|id: int| 0 <= id < i + 1 && #[trigger] self.is_live(id) implies r@.contains(
                        id as usize,
                    ) by {
                        if id < i {
                            assert(before.contains(id as usize));
                            let k = choose|k: int| 0 <= k < before.len() && before[k] == id as usize;
                            assert(r@[k] == id as usize);
                        }
                    }
                }
            }
            i += 1;
        }
        r
    }

    /// Debug append that bypasses placement: the data goes right after what the previous
    /// appends wrote. Returns an unregistered record with both starts at 0 and the byte
    /// offsets at which to write the vertices and the indices.
    pub fn flap_push<T>(&mut self, vertex_buffer: &[T], index_buffer: &[u32]) -> (r: Result<
        (SubMeshHandel, u64, u64),
        AllocError,
    >)
        requires
            old(self).wf(),
        ensures
            final(self).wf(),
            final(self).label() == old(self).label(),
            final(self).stride() == old(self).stride(),
            final(self).capacity(true) == old(self).capacity(true),
            final(self).capacity(false) == old(self).capacity(false),
            final(self).record_count() == old(self).record_count(),
            forall|j: int| #![trigger final(self).record(j)] final(self).record(j) == old(self).record(j),
            forall|j: int| #![trigger final(self).is_live(j)] final(self).is_live(j) == old(self).is_live(j),
            match r {
                Ok((h, vertex_offset, index_offset)) => {
                    &&& old(self).flat_used(true) + vertex_buffer@.len() <= old(self).capacity(true)
                    &&& old(self).flat_used(false) + index_buffer@.len() <= old(self).capacity(false)
                    &&& h == (SubMeshHandel {
                        vertex_start: 0,
                        vertex_length: vertex_buffer@.len() as u32,
                        index_start: 0,
                        index_length: index_buffer@.len() as u32,
                    })
                    &&& vertex_offset == old(self).flat_used(true) * old(self).stride()
                    &&& index_offset == old(self).flat_used(false) * 4
                    &&& final(self).flat_used(true) == old(self).flat_used(true) + vertex_buffer@.len()
                    &&& final(self).flat_used(false) == old(self).flat_used(false) + index_buffer@.len()
                },
                Err(e) => {
                    &&& e == AllocError::BufferFull
                    &&& (old(self).flat_used(true) + vertex_buffer@.len() > old(self).capacity(true)
                        || old(self).flat_used(false) + index_buffer@.len() > old(self).capacity(false))
                    &&& final(self).same_state(*old(self))
                },
            },
    {
        let lv = vertex_buffer.len();
        let li = index_buffer.len();
        if lv > self.vertex_capacity as usize || li > self.index_capacity as usize {
            return Err(AllocError::BufferFull);
        }
        if self.flat_vertex as u64 + lv as u64 > self.vertex_capacity as u64 || self.flat_index as u64
            + li as u64 > self.index_capacity as u64 {
            return Err(AllocError::BufferFull);
        }
        proof {
            assert(self.flat_vertex as nat * self.vertex_size as nat <= self.vertex_size as nat
                * self.vertex_capacity as nat) by (nonlinear_arith)
                requires
                    self.flat_vertex <= self.vertex_capacity,
            ;
        }
        let vertex_offset = self.flat_vertex as u64 * self.vertex_size as u64;
        let index_offset = self.flat_index as u64 * 4;
        let h = SubMeshHandel {
            vertex_start: 0,
            vertex_length: lv as u32,
            index_start: 0,
            index_length: li as u32,
        };
        self.flat_vertex = self.flat_vertex + lv as u32;
        self.flat_index = self.flat_index + li as u32;
        proof {
            self.lemma_wf_same_slots(*old(self));
        }
        Ok((h, vertex_offset, index_offset))
    }

    /// Live ids of one buffer kind, ordered by the start of their range.
    fn live_ids_sorted(&self, vertex: bool) -> (order: Vec<usize>)
        requires
            self.wf(),
        ensures
            order@.no_duplicates(),
            forall|k: int| #![trigger order@[k]] 0 <= k < order.len() ==> self.is_live(order@[k] as int),
            forall|id: int| #[trigger] self.is_live(id) ==> order@.contains(id as usize),
            forall|a: int, b: int|
                0 <= a < b < order.len() ==> self.record(order[a] as int).start(vertex)
                    <= self.record(order[b] as int).start(vertex),
    {
        let mut order: Vec<usize> = Vec::new();
        let mut i: usize = 0;
        while i < self.handles.len()
            invariant
                self.wf(),
                0 <= i <= self.handles.len(),
                order@.no_duplicates(),
                forall|k: int|
                    #![trigger order@[k]]
                    0 <= k < order.len() ==> self.is_live(order@[k] as int) && order@[k] < i,
                forall|id: int| 0 <= id < i && #[trigger] self.is_live(id) ==> order@.contains(
                    id as usize,
                ),
                forall|a: int, b: int|
                    0 <= a < b < order.len() ==> self.record(order[a] as int).start(vertex)
                        <= self.record(order[b] as int).start(vertex),
            decreases self.handles.len() - i,
        {
            if self.live[i] {
                let key = self.handles[i].range_of(vertex).0;
                let mut p: usize = 0;
                while p < order.len() && self.handles[order[p]].range_of(vertex).0 <= key
                    invariant
                        self.wf(),
                        0 <= p <= order.len(),
                        forall|k: int|
                            #![trigger order@[k]]
                            0 <= k < order.len() ==> self.is_live(order@[k] as int),
                        forall|k: int|
                            0 <= k < p ==> self.record(order[k] as int).start(vertex) <= key,
                    decreases order.len() - p,
                {
                    p += 1;
                }
                let ghost before = order@;
                proof {
                    before.insert_ensures(p as int, i);
                    assert(forall|k: int|
                        p <= k < before.len() ==> self.record(before[k] as int).start(vertex)
                            > key) by {
                        if p < before.len() {
                            assert(self.record(before[p as int] as int).start(vertex) > key);
                        }
                    }
                }
                order.insert(p, i);
                proof {
                    assert forall|k: int| 0 <= k < order.len() implies #[trigger] order@[k] == (
                        if k < p {
                            before[k]
                        } else if k == p {
                            i
                        } else {
                            before[k - 1]
                        }) by {
                        lemma_insert_index(before, p as int, i, k);
                    }
                    assert forall|a: int, b: int| 0 <= a < b < order.len() implies self.record(
                        order[a] as int,
                    ).start(vertex) <= self.record(order[b] as int).start(vertex) by {
                        if a > p {
                            assert(before[a - 1] == order@[a] && before[b - 1] == order@[b]);
                        } else if a < p && b > p {
                            assert(before[b - 1] == order@[b]);
                        }
                    }
                    assert forall|x: int, y: int|
                        0 <= x < order.len() && 0 <= y < order.len() && x != y implies order@[x]
                        != order@[y] by {
                        let bx = if x < p { x } else { x - 1 };
                        let by = if y < p { y } else { y - 1 };
                        if x != p {
                            assert(before[bx] == order@[x]);
                        }
                        if y != p {
                            assert(before[by] == order@[y]);
                        }
                    }
                    assert(order@.no_duplicates());
                    assert forall|id: int| 0 <= id < i + 1 && #[trigger] self.is_live(id) implies order@.contains(
                        id as usize,
                    ) by {
                        if id == i {
                            assert(order@[p as int] == i);
                        } else {
                            assert(before.contains(id as usize));
                            let k = choose|k: int| 0 <= k < before.len() && before[k] == id as usize;
                            if k < p {
                                assert(order@[k] == id as usize);
                            } else {
                                assert(order@[k + 1] == id as usize);
                            }
                        }
                    }
                }
            }
            i += 1;
        }
        order
    }

    /// Lowest offset at which `len` elements fit: the live ranges are walked in order of
    /// their start, and the candidate is moved past each range that it overlaps.
    fn lowest_free(&self, vertex: bool, len: u32) -> (s: u32)
        requires
            self.wf(),
            0 < len <= self.capacity(vertex),
        ensures
            self.is_lowest_free(vertex, s as int, len as int),
            s <= self.capacity(vertex),
    {
        let order = self.live_ids_sorted(vertex);
        proof {
            self.lemma_sorted_apart(order@, vertex);
        }
        let mut s: u32 = 0;
        let mut hit = false;
        let mut done = false;
        let mut i: usize = 0;
        while i < order.len() && !done
            invariant
                self.wf(),
                0 < len <= self.capacity(vertex),
                order@.no_duplicates(),
                forall|k: int| #![trigger order@[k]] 0 <= k < order.len() ==> self.is_live(order@[k] as int),
                forall|id: int| #[trigger] self.is_live(id) ==> order@.contains(id as usize),
                forall|a: int, b: int|
                    0 <= a < b < order.len() ==> self.record(order[a] as int).end(vertex)
                        <= self.record(order[b] as int).start(vertex),
                0 <= i <= order.len(),
                s <= self.capacity(vertex),
                forall|q: int| 0 <= q < s ==> !#[trigger] self.fits(vertex, q, len as int),
                hit ==> i > 0 && s == self.record(order[i - 1] as int).end(vertex),
                !hit ==> s == 0 && forall|k: int|
                    0 <= k < i ==> self.record(order[k] as int).start(vertex) >= len,
                done ==> hit && i < order.len() && !ranges_overlap(
                    s as int,
                    s + len,
                    self.record(order[i as int] as int).start(vertex),
                    self.record(order[i as int] as int).end(vertex),
                ),
            decreases order.len() - i + (if done { 0int } else { 1int }),
        {
            let id = order[i];
            proof {
                assert(self.is_live(id as int));
            }
            let (r_start, r_len) = self.handles[id].range_of(vertex);
            let r_end = r_start + r_len;
            proof {
                lemma_overlap_nonempty(s as int, s + len, r_start as int, r_end as int);
            }
            if overlap_wide(s as u64, s as u64 + len as u64, r_start as u64, r_end as u64) {
                proof {
                    assert forall|q: int| 0 <= q < r_end implies !#[trigger] self.fits(
                        vertex,
                        q,
                        len as int,
                    ) by {
                        if q >= s {
                            lemma_overlap_nonempty(q, q + len, r_start as int, r_end as int);
                            assert(self.is_live(id as int));
                        }
                    }
                }
                s = r_end;
                hit = true;
                i += 1;
            } else if hit {
                done = true;
            } else {
                i += 1;
            }
        }
        proof {
            assert forall|id: int| #[trigger] self.is_live(id) implies !ranges_overlap(
                s as int,
                s + len,
                self.record(id).start(vertex),
                self.record(id).end(vertex),
            ) by {
                assert(order@.contains(id as usize));
                assert(id < self.handles.len());
                let k = choose|k: int| 0 <= k < order.len() && order@[k] == id as usize;
                assert(order@[k] as int == id);
                assert(self.is_live(order@[k] as int));
                let st = self.record(id).start(vertex);
                let en = self.record(id).end(vertex);
                lemma_overlap_nonempty(s as int, s + len, st, en);
                if done {
                    let j = i as int;
                    assert(self.is_live(order@[j] as int));
                    let sj = self.record(order@[j] as int).start(vertex);
                    let ej = self.record(order@[j] as int).end(vertex);
                    lemma_overlap_nonempty(s as int, s + len, sj, ej);
                    assert(s == self.record(order@[j - 1] as int).end(vertex));
                    assert(self.record(order@[j - 1] as int).end(vertex) <= sj);
                    assert(sj >= s + len);
                    if k > j {
                        assert(ej <= st);
                    } else if k < j - 1 {
                        assert(self.is_live(order@[j - 1] as int));
                        assert(en <= self.record(order@[j - 1] as int).start(vertex));
                    }
                } else if hit {
                    let j = order.len() - 1;
                    assert(i == order.len());
                    assert(self.is_live(order@[j] as int));
                    if k < j {
                        assert(en <= self.record(order@[j] as int).start(vertex));
                    }
                } else {
                    assert(st >= len);
                }
            }
        }
        s
    }

    proof fn lemma_wf_same_slots(self, other: Self)
        requires
            other.wf(),
            self.handles@ == other.handles@,
            self.live@ == other.live@,
            self.vertex_size == other.vertex_size,
            self.vertex_capacity == other.vertex_capacity,
            self.index_capacity == other.index_capacity,
        ensures
            self.wf(),
    {
        assert forall|a: int, b: int|
            #![trigger self.is_live(a), self.is_live(b)]
            self.is_live(a) && self.is_live(b) && a != b implies self.apart(a, b) by {
            assert(other.is_live(a) && other.is_live(b));
            assert(other.apart(a, b));
        }
        assert forall|j: int| #[trigger] self.is_live(j) implies {
            &&& self.record(j).vertex_length > 0
            &&& self.record(j).index_length > 0
            &&& self.record(j).end(true) <= self.vertex_capacity
            &&& self.record(j).end(false) <= self.index_capacity
        } by {
            assert(other.is_live(j));
        }
    }

    proof fn lemma_wf_apart(self, a: int, b: int)
        requires
            self.wf(),
            self.is_live(a),
            self.is_live(b),
            a != b,
        ensures
            self.apart(a, b),
    {
    }

    /// Two distinct live ranges of one kind, the first starting no later, end before the
    /// second starts.
    proof fn lemma_sorted_apart(self, order: Seq<usize>, vertex: bool)
        requires
            self.wf(),
            order.no_duplicates(),
            forall|k: int| #![trigger order[k]] 0 <= k < order.len() ==> self.is_live(order[k] as int),
            forall|a: int, b: int|
                0 <= a < b < order.len() ==> self.record(order[a] as int).start(vertex)
                    <= self.record(order[b] as int).start(vertex),
        ensures
            forall|a: int, b: int|
                0 <= a < b < order.len() ==> self.record(order[a] as int).end(vertex)
                    <= self.record(order[b] as int).start(vertex),
    {
        assert forall|a: int, b: int| 0 <= a < b < order.len() implies self.record(
            order[a] as int,
        ).end(vertex) <= self.record(order[b] as int).start(vertex) by {
            let x = order[a] as int;
            let y = order[b] as int;
            assert(self.is_live(x) && self.is_live(y));
            assert(self.apart(x, y));
            lemma_overlap_nonempty(
                self.record(x).start(vertex),
                self.record(x).end(vertex),
                self.record(y).start(vertex),
                self.record(y).end(vertex),
            );
        }
    }
}

} // verus!
