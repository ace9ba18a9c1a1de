use vstd::prelude::*;

verus! {

/// Raw per-voxel data: one byte buffer for each attribute of a layout.
pub struct Volume {
    vol: Vec<Vec<u8>>,
}

/// Element type of an attribute.
#[derive(Clone, Copy, Debug, PartialEq, Eq, Structural)]
pub enum AttributeFormat {
    U8,
    U8x3,
    U16,
    U32,
}

impl AttributeFormat {
    /// Size in bytes of one element of the format.
    pub open spec fn size_spec(self) -> nat {
        match self {
            AttributeFormat::U8 => 1,
            AttributeFormat::U8x3 => 3,
            AttributeFormat::U16 => 2,
            AttributeFormat::U32 => 4,
        }
    }

    pub fn get_size_for(input: Self) -> (r: usize)
        ensures
            r == input.size_spec(),
    {
        match input {
            AttributeFormat::U8 => 1,
            AttributeFormat::U8x3 => 3,
            AttributeFormat::U16 => 2,
            AttributeFormat::U32 => 4,
        }
    }
}

/// Describes one attribute of a volume: the size of its elements and of its whole buffer.
#[derive(Clone, Debug)]
pub struct Attribute {
    /// Size of an individual element in bytes.
    bits_per_element: usize,
    /// Total volume size in bytes.
    total_size_in_bytes: usize,
    name: String,
}

impl Attribute {
    pub closed spec fn element_bytes(self) -> nat {
        self.bits_per_element as nat
    }

    pub closed spec fn total_bytes(self) -> nat {
        self.total_size_in_bytes as nat
    }

    pub closed spec fn label(self) -> Seq<char> {
        self.name@
    }

    /// An attribute of `total_size_in_elements` elements of type `T`.
    pub fn new<T>(total_size_in_elements: usize, name: String) -> (r: Self)
        requires
            total_size_in_elements * vstd::layout::size_of::<T>() <= usize::MAX,
        ensures
            r.element_bytes() == vstd::layout::size_of::<T>(),
            r.total_bytes() == total_size_in_elements * vstd::layout::size_of::<T>(),
            r.label() == name@,
    {
        let element = core::mem::size_of::<T>();
        Self { bits_per_element: element, total_size_in_bytes: total_size_in_elements * element, name }
    }

    pub fn set_name(&mut self, name: &str)
        ensures
            final(self).label() == name@,
            final(self).element_bytes() == old(self).element_bytes(),
            final(self).total_bytes() == old(self).total_bytes(),
    {
        proof {
            broadcast use vstd::string::to_string_from_display_ensures_for_str;
        }
        self.name = name.to_string();
    }

    pub fn name(&self) -> (r: &String)
        ensures
            r@ == self.label(),
    {
        &self.name
    }

    pub fn total_size_in_bytes(&self) -> (r: usize)
        ensures
            r == self.total_bytes(),
    {
        self.total_size_in_bytes
    }
}

/// The attributes of a volume, in buffer order.
pub struct AttributeLayout {
    pub layout: Vec<Attribute>,
}

impl Volume {
    pub closed spec fn buffers(self) -> Seq<Seq<u8>> {
        self.vol@.map_values(|b: Vec<u8>| b@)
    }

    /// The buffer of attribute number `attribute`.
    pub fn get_buffer(&self, attribute: usize) -> (r: Option<&Vec<u8>>)
        ensures
            match r {
                Some(b) => attribute < self.buffers().len() && b@ == self.buffers()[attribute as int],
                None => attribute >= self.buffers().len(),
            },
    {
        if attribute < self.vol.len() {
            Some(&self.vol[attribute])
        } else {
            None
        }
    }

    /// A zeroed volume with one buffer per attribute of `attribute_layout`, each of the
    /// attribute's total size.
    pub fn get_new_volume(attribute_layout: &AttributeLayout) -> (r: Self)
        ensures
            r.buffers().len() == attribute_layout.layout@.len(),
            forall|i: int|
                0 <= i < r.buffers().len() ==> #[trigger] r.buffers()[i] == Seq::new(
                    attribute_layout.layout@[i].total_bytes(),
                    |k: int| 0u8,
                ),
    {
        let mut v_attributes: Vec<Vec<u8>> = Vec::new();
        let mut i: usize = 0;
        while i < attribute_layout.layout.len()
            invariant
                0 <= i <= attribute_layout.layout@.len(),
                v_attributes@.len() == i,
                forall|k: int|
                    0 <= k < i ==> #[trigger] v_attributes@[k]@ == Seq::new(
                        attribute_layout.layout@[k].total_bytes(),
                        |j: int| 0u8,
                    ),
            decreases attribute_layout.layout@.len() - i,
        {
            let n = attribute_layout.layout[i].total_size_in_bytes();
            let mut buf: Vec<u8> = Vec::new();
            let mut j: usize = 0;
            while j < n
                invariant
                    0 <= j <= n,
                    buf@ == Seq::new(j as nat, |k: int| 0u8),
                decreases n - j,
            {
                buf.push(0);
                j += 1;
                proof {
                    assert(buf@ =~= Seq::new(j as nat, |k: int| 0u8));
                }
            }
            let ghost before = v_attributes@;
            v_attributes.push(buf);
            proof {
                assert forall|k: int|
                    0 <= k < i + 1 implies #[trigger] v_attributes@[k]@ == Seq::new(
                        attribute_layout.layout@[k].total_bytes(),
                        |j: int| 0u8,
                    ) by {
                    if k < i {
                        assert(v_attributes@[k] == before[k]);
                    }
                }
            }
            i += 1;
        }
        Self { vol: v_attributes }
    }
}

/// Three bytes, laid out as in a packed colour or normal.
#[derive(Clone, Copy, Debug)]
pub struct U8vec3 {
    x: u8,
    y: u8,
    z: u8,
}

impl U8vec3 {
    pub closed spec fn parts(self) -> (u8, u8, u8) {
        (self.x, self.y, self.z)
    }

    pub fn xyz(&self) -> (r: (u8, u8, u8))
        ensures
            r == self.parts(),
    {
        (self.x, self.y, self.z)
    }

    pub fn new(x: u8, y: u8, z: u8) -> (r: Self)
        ensures
            r.parts() == (x, y, z),
    {
        Self { x, y, z }
    }
}

} // verus!
