use vstd::prelude::*;
use vstd::string::StringExecFns;

verus! {

/// Number of gem kinds.
pub const GEM_KINDS: usize = 8;

/// Kind of a gem. Six kinds are colours that pay into a resource ledger,
/// `Skull` is the obstacle kind that pays nothing, `Equipment` is the
/// equipment kind.
#[derive(Clone, Copy, Debug, PartialEq, Eq, Structural)]
pub enum GemType {
    Ruby,
    Emerald,
    Sapphire,
    Topaz,
    Diamond,
    Amethyst,
    Skull,
    Equipment,
}

/// Position of a kind in the board's numbering of gem kinds.
pub open spec fn type_index(t: GemType) -> nat {
    match t {
        GemType::Ruby => 0,
        GemType::Emerald => 1,
        GemType::Sapphire => 2,
        GemType::Topaz => 3,
        GemType::Diamond => 4,
        GemType::Amethyst => 5,
        GemType::Skull => 6,
        GemType::Equipment => 7,
    }
}

/// Whether gems of this kind are credited to a ledger when popped.
pub open spec fn pays_resource(t: GemType) -> bool {
    t != GemType::Skull
}

impl GemType {
    /// The kind numbered `i` by the board.
    pub fn from_index(i: u32) -> (r: GemType)
        requires
            i < GEM_KINDS,
        ensures
            type_index(r) == i,
    {
        match i {
            0 => GemType::Ruby,
            1 => GemType::Emerald,
            2 => GemType::Sapphire,
            3 => GemType::Topaz,
            4 => GemType::Diamond,
            5 => GemType::Amethyst,
            6 => GemType::Skull,
            _ => GemType::Equipment,
        }
    }

    /// The board's number for this kind.
    pub fn index(&self) -> (r: usize)
        ensures
            r == type_index(*self),
            r < GEM_KINDS,
    {
        match self {
            GemType::Ruby => 0,
            GemType::Emerald => 1,
            GemType::Sapphire => 2,
            GemType::Topaz => 3,
            GemType::Diamond => 4,
            GemType::Amethyst => 5,
            GemType::Skull => 6,
            GemType::Equipment => 7,
        }
    }

    /// Whether popping a gem of this kind credits a ledger.
    pub fn is_resource(&self) -> (r: bool)
        ensures
            r == pays_resource(*self),
    {
        !matches!(self, GemType::Skull)
    }

    /// Display name of the kind, as shown on the resource panel.
    pub fn name(&self) -> (r: &'static str)
        ensures
            r@ == kind_name(*self)@,
    {
        match self {
            GemType::Ruby => "Ruby",
            GemType::Emerald => "Emerald",
            GemType::Sapphire => "Sapphire",
            GemType::Topaz => "Topaz",
            GemType::Diamond => "Diamond",
            GemType::Amethyst => "Amethyst",
            GemType::Skull => "Skull",
            GemType::Equipment => "Equipment",
        }
    }
}

/// Display name of a gem kind.
pub open spec fn kind_name(t: GemType) -> &'static str {
    match t {
        GemType::Ruby => "Ruby",
        GemType::Emerald => "Emerald",
        GemType::Sapphire => "Sapphire",
        GemType::Topaz => "Topaz",
        GemType::Diamond => "Diamond",
        GemType::Amethyst => "Amethyst",
        GemType::Skull => "Skull",
        GemType::Equipment => "Equipment",
    }
}

/// Cut of the mesh that a gem kind is drawn with.
#[derive(Clone, Copy, Debug, PartialEq, Eq, Hash, Structural)]
pub enum GemShape {
    Asscher,
    Baguette,
    Marquise,
    Pear,
    Round,
    Trillion,
    Skull,
    Equipment,
}

/// The shape each gem kind is drawn with.
pub open spec fn shape_of(t: GemType) -> GemShape {
    match t {
        GemType::Ruby => GemShape::Asscher,
        GemType::Emerald => GemShape::Baguette,
        GemType::Sapphire => GemShape::Marquise,
        GemType::Topaz => GemShape::Pear,
        GemType::Diamond => GemShape::Round,
        GemType::Amethyst => GemShape::Trillion,
        GemType::Skull => GemShape::Skull,
        GemType::Equipment => GemShape::Equipment,
    }
}

/// Name of a shape, which is also the stem of its mesh files.
pub open spec fn shape_name(s: GemShape) -> &'static str {
    match s {
        GemShape::Asscher => "Asscher",
        GemShape::Baguette => "Baguette",
        GemShape::Marquise => "Marquise",
        GemShape::Pear => "Pear",
        GemShape::Round => "Round",
        GemShape::Trillion => "Trillion",
        GemShape::Skull => "Skull",
        GemShape::Equipment => "Equipment",
    }
}

impl GemShape {
    /// All shapes, in declaration order.
    pub fn all() -> (r: Vec<GemShape>)
        ensures
            r@ == seq![
                GemShape::Asscher,
                GemShape::Baguette,
                GemShape::Marquise,
                GemShape::Pear,
                GemShape::Round,
                GemShape::Trillion,
                GemShape::Skull,
                GemShape::Equipment,
            ],
    {
        vec![
            GemShape::Asscher,
            GemShape::Baguette,
            GemShape::Marquise,
            GemShape::Pear,
            GemShape::Round,
            GemShape::Trillion,
            GemShape::Skull,
            GemShape::Equipment,
        ]
    }

    /// Name of the shape.
    pub fn name(&self) -> (r: &'static str)
        ensures
            r@ == shape_name(*self)@,
    {
        match self {
            GemShape::Asscher => "Asscher",
            GemShape::Baguette => "Baguette",
            GemShape::Marquise => "Marquise",
            GemShape::Pear => "Pear",
            GemShape::Round => "Round",
            GemShape::Trillion => "Trillion",
            GemShape::Skull => "Skull",
            GemShape::Equipment => "Equipment",
        }
    }

    /// File of the whole mesh: the shape's name followed by `.glb`.
    pub fn mesh_path(&self) -> (r: String)
        ensures
            r@ == shape_name(*self)@ + ".glb"@,
    {
        String::from_str(self.name()).concat(".glb")
    }

    /// File of the shattered mesh: the shape's name followed by
    /// `_shattered.glb`.
    pub fn shattered_mesh_path(&self) -> (r: String)
        ensures
            r@ == shape_name(*self)@ + "_shattered.glb"@,
    {
        String::from_str(self.name()).concat("_shattered.glb")
    }
}

impl From<GemType> for GemShape {
    fn from(t: GemType) -> GemShape {
        match t {
            GemType::Ruby => GemShape::Asscher,
            GemType::Emerald => GemShape::Baguette,
            GemType::Sapphire => GemShape::Marquise,
            GemType::Topaz => GemShape::Pear,
            GemType::Diamond => GemShape::Round,
            GemType::Amethyst => GemShape::Trillion,
            GemType::Skull => GemShape::Skull,
            GemType::Equipment => GemShape::Equipment,
        }
    }
}

impl vstd::std_specs::convert::FromSpecImpl<GemType> for GemShape {
    open spec fn obeys_from_spec() -> bool {
        true
    }

    open spec fn from_spec(t: GemType) -> GemShape {
        shape_of(t)
    }
}

} // verus!
