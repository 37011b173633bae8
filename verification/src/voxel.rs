use vstd::prelude::*;

verus! {

/// How a voxel shows in a mesh.
#[derive(Clone, Copy, Debug, PartialEq, Eq, Structural, Hash)]
pub enum VoxelVisibility {
    Opaque,
    Transparent,
    Empty,
}

/// The shape a block is drawn with.
#[derive(Clone, Copy, Debug, PartialEq, Eq, Structural, Hash)]
pub enum GeometryType {
    Block,
    VerticalSlab,
    HorizontalSlab,
    Stairs,
}

/// A voxel as the mesher sees it: its visibility and the palette index of its state.
#[derive(Clone, Copy, Debug, PartialEq, Eq, Structural, Hash)]
pub enum VoxelType {
    Empty(u16),
    Opaque(u16),
    Transparent(u16),
}

/// The ASCII lower-case form of a character code; other codes stay as they are.
pub open spec fn ascii_lower(c: char) -> u32 {
    if 65 <= (c as u32) && (c as u32) <= 90 {
        (c as u32 + 32) as u32
    } else {
        c as u32
    }
}

/// Two strings are equal when ASCII letters are compared without regard to case.
pub open spec fn eq_ignore_ascii_case(a: Seq<char>, b: Seq<char>) -> bool {
    &&& a.len() == b.len()
    &&& forall|i: int| 0 <= i < a.len() ==> ascii_lower(#[trigger] a[i]) == ascii_lower(b[i])
}

/// Compares `s` with `name` without regard to the case of ASCII letters.
pub fn ascii_case_eq(s: &str, name: &str) -> (r: bool)
    ensures
        r == eq_ignore_ascii_case(s@, name@),
{
    let n = s.unicode_len();
    if n != name.unicode_len() {
        return false;
    }
    let mut i: usize = 0;
    while i < n
        invariant
            n == s@.len(),
            n == name@.len(),
            i <= n,
            forall|j: int| 0 <= j < i ==> ascii_lower(#[trigger] s@[j]) == ascii_lower(name@[j]),
        decreases n - i,
    {
        let a = s.get_char(i) as u32;
        let b = name.get_char(i) as u32;
        let la = if 65 <= a && a <= 90 {
            a + 32
        } else {
            a
        };
        let lb = if 65 <= b && b <= 90 {
            b + 32
        } else {
            b
        };
        if la != lb {
            return false;
        }
        i = i + 1;
    }
    true
}

/// The visibility whose variant name matches `name` without regard to case.
pub open spec fn visibility_named(name: Seq<char>) -> Option<VoxelVisibility> {
    if eq_ignore_ascii_case(name, seq!['o', 'p', 'a', 'q', 'u', 'e']) {
        Some(VoxelVisibility::Opaque)
    } else if eq_ignore_ascii_case(name, seq!['t', 'r', 'a', 'n', 's', 'p', 'a', 'r', 'e', 'n', 't']) {
        Some(VoxelVisibility::Transparent)
    } else if eq_ignore_ascii_case(name, seq!['e', 'm', 'p', 't', 'y']) {
        Some(VoxelVisibility::Empty)
    } else {
        None
    }
}

/// The geometry whose variant name matches `name` without regard to case.
pub open spec fn geometry_named(name: Seq<char>) -> Option<GeometryType> {
    if eq_ignore_ascii_case(name, seq!['b', 'l', 'o', 'c', 'k']) {
        Some(GeometryType::Block)
    } else if eq_ignore_ascii_case(
        name,
        seq!['v', 'e', 'r', 't', 'i', 'c', 'a', 'l', 's', 'l', 'a', 'b'],
    ) {
        Some(GeometryType::VerticalSlab)
    } else if eq_ignore_ascii_case(
        name,
        seq!['h', 'o', 'r', 'i', 'z', 'o', 'n', 't', 'a', 'l', 's', 'l', 'a', 'b'],
    ) {
        Some(GeometryType::HorizontalSlab)
    } else if eq_ignore_ascii_case(name, seq!['s', 't', 'a', 'i', 'r', 's']) {
        Some(GeometryType::Stairs)
    } else {
        None
    }
}

impl VoxelVisibility {
    /// The variant named `name`, compared without regard to ASCII case.
    pub fn from_name(name: &str) -> (r: Option<VoxelVisibility>)
        ensures
            r == visibility_named(name@),
    {
        proof {
            reveal_strlit("opaque");
            reveal_strlit("transparent");
            reveal_strlit("empty");
            assert("opaque"@ =~= seq!['o', 'p', 'a', 'q', 'u', 'e']);
            assert("transparent"@ =~= seq!['t', 'r', 'a', 'n', 's', 'p', 'a', 'r', 'e', 'n', 't']);
            assert("empty"@ =~= seq!['e', 'm', 'p', 't', 'y']);
        }
        if ascii_case_eq(name, "opaque") {
            Some(VoxelVisibility::Opaque)
        } else if ascii_case_eq(name, "transparent") {
            Some(VoxelVisibility::Transparent)
        } else if ascii_case_eq(name, "empty") {
            Some(VoxelVisibility::Empty)
        } else {
            None
        }
    }
}

impl Default for VoxelVisibility {
    fn default() -> (r: VoxelVisibility)
        ensures
            r == VoxelVisibility::Opaque,
    {
        VoxelVisibility::Opaque
    }
}

impl GeometryType {
    /// The variant named `name`, compared without regard to ASCII case.
    pub fn from_name(name: &str) -> (r: Option<GeometryType>)
        ensures
            r == geometry_named(name@),
    {
        proof {
            reveal_strlit("block");
            reveal_strlit("verticalslab");
            reveal_strlit("horizontalslab");
            reveal_strlit("stairs");
            assert("block"@ =~= seq!['b', 'l', 'o', 'c', 'k']);
            assert("verticalslab"@ =~= seq!['v', 'e', 'r', 't', 'i', 'c', 'a', 'l', 's', 'l', 'a', 'b']);
            assert("horizontalslab"@ =~= seq![
                'h', 'o', 'r', 'i', 'z', 'o', 'n', 't', 'a', 'l', 's', 'l', 'a', 'b'
            ]);
            assert("stairs"@ =~= seq!['s', 't', 'a', 'i', 'r', 's']);
        }
        if ascii_case_eq(name, "block") {
            Some(GeometryType::Block)
        } else if ascii_case_eq(name, "verticalslab") {
            Some(GeometryType::VerticalSlab)
        } else if ascii_case_eq(name, "horizontalslab") {
            Some(GeometryType::HorizontalSlab)
        } else if ascii_case_eq(name, "stairs") {
            Some(GeometryType::Stairs)
        } else {
            None
        }
    }
}

impl Default for GeometryType {
    fn default() -> (r: GeometryType)
        ensures
            r == GeometryType::Block,
    {
        GeometryType::Block
    }
}

/// Something the mesher can ask how it shows.
pub trait Voxel {
    fn visibility(&self) -> VoxelVisibility;
}

impl VoxelType {
    /// The visibility a voxel of this kind has.
    pub open spec fn spec_visibility(self) -> VoxelVisibility {
        match self {
            VoxelType::Empty(_) => VoxelVisibility::Empty,
            VoxelType::Opaque(_) => VoxelVisibility::Opaque,
            VoxelType::Transparent(_) => VoxelVisibility::Transparent,
        }
    }

    /// The palette index the voxel carries.
    pub open spec fn spec_value(self) -> u16 {
        match self {
            VoxelType::Empty(v) => v,
            VoxelType::Opaque(v) => v,
            VoxelType::Transparent(v) => v,
        }
    }

    /// The palette index the voxel carries.
    pub fn value(self) -> (r: u16)
        ensures
            r == self.spec_value(),
    {
        match self {
            VoxelType::Empty(v) => v,
            VoxelType::Opaque(v) => v,
            VoxelType::Transparent(v) => v,
        }
    }
}

impl Voxel for VoxelType {
    fn visibility(&self) -> (r: VoxelVisibility)
        ensures
            r == self.spec_visibility(),
    {
        match self {
            VoxelType::Empty(_) => VoxelVisibility::Empty,
            VoxelType::Opaque(_) => VoxelVisibility::Opaque,
            VoxelType::Transparent(_) => VoxelVisibility::Transparent,
        }
    }
}

impl Default for VoxelType {
    fn default() -> (r: VoxelType)
        ensures
            r == VoxelType::Empty(0),
    {
        VoxelType::Empty(0)
    }
}

} // verus!
