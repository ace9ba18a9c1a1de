use vstd::prelude::*;

verus! {

/// One value per voxel of a volume, stored densely.
pub struct AttributeLayer<T> {
    pub layer: Vec<T>,
}

/// Dense per-voxel storage of a chunk: the voxel type ids.
pub struct Volume {
    pub type_id: AttributeLayer<u16>,
}

impl Volume {
    /// A volume of `size` voxels, all air.
    pub fn new(size: usize) -> (r: Self)
        ensures
            r.type_id.layer@ == Seq::new(size as nat, |i: int| 0u16),
    {
        let mut layer: Vec<u16> = Vec::new();
        let mut i: usize = 0;
        while i < size
            invariant
                0 <= i <= size,
                layer@ == Seq::new(i as nat, |k: int| 0u16),
            decreases size - i,
        {
            layer.push(0);
            i += 1;
            proof {
                assert(layer@ =~= Seq::new(i as nat, |k: int| 0u16));
            }
        }
        Volume { type_id: AttributeLayer { layer } }
    }
}

} // verus!
