use vstd::prelude::*;

use crate::mesh::{SharedMesh, SubMeshHandel};

verus! {

/// One indexed, instanced draw call sourced from the shared buffers.
#[derive(Clone, Copy, Debug, PartialEq, Eq, Structural)]
pub struct DrawIndexedIndirect {
    /// The number of indices to draw.
    pub vertex_count: u32,
    /// The number of instances to draw.
    pub instance_count: u32,
    /// The first index within the index buffer.
    pub base_index: u32,
    /// The value added to each index before reading the vertex buffer.
    pub vertex_offset: i32,
    /// The slot of the first instance in the instance buffer.
    pub base_instance: u32,
}

/// The draw calls of one shared-mesh owner, in instance order.
pub struct DrawIndexedIndirectList {
    pub draw_indirect: Vec<DrawIndexedIndirect>,
}

/// A sub-mesh handle drawn once, with its transform at slot `inst_index` of the instance
/// buffer.
#[derive(Clone, Copy, Debug, PartialEq, Eq, Structural)]
pub struct ModelInstance {
    pub mesh: usize,
    pub inst_index: u32,
}

pub struct ModelInstanceList {
    pub instance_list: Vec<ModelInstance>,
}

/// The draw call for the current placement `h` of a sub-mesh and instance slot `slot`.
pub open spec fn draw_of(h: SubMeshHandel, slot: u32) -> DrawIndexedIndirect {
    DrawIndexedIndirect {
        vertex_count: h.index_length,
        instance_count: 1,
        base_index: h.index_start,
        vertex_offset: h.vertex_start as i32,
        base_instance: slot,
    }
}

impl ModelInstanceList {
    /// Gives each instance the slot of its position in the list.
    pub fn assign_instance_indices(&mut self)
        requires
            old(self).instance_list@.len() <= u32::MAX + 1,
        ensures
            final(self).instance_list@.len() == old(self).instance_list@.len(),
            forall|i: int|
                0 <= i < final(self).instance_list@.len() ==> #[trigger] final(self).instance_list@[i]
                    == (ModelInstance {
                    mesh: old(self).instance_list@[i].mesh,
                    inst_index: i as u32,
                }),
    {
        let mut i: usize = 0;
        while i < self.instance_list.len()
            invariant
                self.instance_list@.len() == old(self).instance_list@.len(),
                self.instance_list@.len() <= u32::MAX + 1,
                0 <= i <= self.instance_list@.len(),
                forall|k: int|
                    0 <= k < i ==> #[trigger] self.instance_list@[k] == (ModelInstance {
                        mesh: old(self).instance_list@[k].mesh,
                        inst_index: k as u32,
                    }),
                forall|k: int|
                    i <= k < self.instance_list@.len() ==> #[trigger] self.instance_list@[k]
                        == old(self).instance_list@[k],
            decreases self.instance_list@.len() - i,
        {
            let mesh = self.instance_list[i].mesh;
            self.instance_list.set(i, ModelInstance { mesh, inst_index: i as u32 });
            i += 1;
        }
    }

    /// The draw calls of the instances, each read from the current record of its handle;
    /// `None` when some instance names a handle that `mesh` never gave out.
    pub fn to_draw_indirect_list(&self, mesh: &SharedMesh) -> (r: Option<DrawIndexedIndirectList>)
        requires
            mesh.wf(),
        ensures
            match r {
                Some(l) => {
                    &&& forall|i: int|
                        0 <= i < self.instance_list@.len() ==> #[trigger] self.instance_list@[i].mesh
                            < mesh.record_count()
                    &&& l.draw_indirect@.len() == self.instance_list@.len()
                    &&& forall|i: int|
                        0 <= i < l.draw_indirect@.len() ==> #[trigger] l.draw_indirect@[i] == draw_of(
                            mesh.record(self.instance_list@[i].mesh as int),
                            self.instance_list@[i].inst_index,
                        )
                },
                None => exists|i: int|
                    0 <= i < self.instance_list@.len() && #[trigger] self.instance_list@[i].mesh
                        >= mesh.record_count(),
            },
    {
        let mut draw_indirect: Vec<DrawIndexedIndirect> = Vec::new();
        let mut i: usize = 0;
        while i < self.instance_list.len()
            invariant
                mesh.wf(),
                0 <= i <= self.instance_list@.len(),
                draw_indirect@.len() == i,
                forall|k: int| 0 <= k < i ==> #[trigger] self.instance_list@[k].mesh < mesh.record_count(),
                forall|k: int|
                    0 <= k < i ==> #[trigger] draw_indirect@[k] == draw_of(
                        mesh.record(self.instance_list@[k].mesh as int),
                        self.instance_list@[k].inst_index,
                    ),
            decreases self.instance_list@.len() - i,
        {
            let inst = self.instance_list[i];
            match mesh.handel(inst.mesh) {
                Some(h) => {
                    draw_indirect.push(
                        DrawIndexedIndirect {
                            vertex_count: h.index_length,
                            instance_count: 1,
                            base_index: h.index_start,
                            vertex_offset: h.vertex_start as i32,
                            base_instance: inst.inst_index,
                        },
                    );
                },
                None => {
                    return None;
                },
            }
            i += 1;
        }
        Some(DrawIndexedIndirectList { draw_indirect })
    }
}

} // verus!
