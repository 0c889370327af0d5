//! The block catalog: the kinds of block and their static properties.

use vstd::prelude::*;

verus! {

/// A kind of block. `Air` is the absence of a block and is never stored.
#[derive(Debug, Clone, Copy, PartialEq, Eq, Structural, Hash)]
pub enum BlockType {
    Air,
    Stone,
    Dirt,
    Grass,
    Sand,
    Water,
    Wood,
    Leaves,
    Bedrock,
}

/// A display colour; each channel is a percentage of full intensity.
#[derive(Debug, Clone, Copy, PartialEq, Eq, Structural)]
pub struct Rgb {
    pub r: u8,
    pub g: u8,
    pub b: u8,
}

/// Whether an entity can stand on or collide with a block of this kind.
pub open spec fn solid(kind: BlockType) -> bool {
    kind != BlockType::Air && kind != BlockType::Water
}

/// The colour table of the catalog.
pub open spec fn color_of(kind: BlockType) -> Rgb {
    match kind {
        BlockType::Air => Rgb { r: 0, g: 0, b: 0 },
        BlockType::Stone => Rgb { r: 50, g: 50, b: 50 },
        BlockType::Dirt => Rgb { r: 60, g: 40, b: 20 },
        BlockType::Grass => Rgb { r: 20, g: 80, b: 20 },
        BlockType::Sand => Rgb { r: 90, g: 80, b: 60 },
        BlockType::Water => Rgb { r: 20, g: 40, b: 80 },
        BlockType::Wood => Rgb { r: 60, g: 30, b: 10 },
        BlockType::Leaves => Rgb { r: 10, g: 60, b: 10 },
        BlockType::Bedrock => Rgb { r: 10, g: 10, b: 10 },
    }
}

impl BlockType {
    /// False for `Air` and `Water`, true for every other kind.
    pub fn is_solid(&self) -> (r: bool)
        ensures
            r == solid(*self),
    {
        match self {
            BlockType::Air | BlockType::Water => false,
            _ => true,
        }
    }

    /// The display colour of this kind.
    pub fn color(&self) -> (c: Rgb)
        ensures
            c == color_of(*self),
            c.r <= 100 && c.g <= 100 && c.b <= 100,
    {
        match self {
            BlockType::Air => Rgb { r: 0, g: 0, b: 0 },
            BlockType::Stone => Rgb { r: 50, g: 50, b: 50 },
            BlockType::Dirt => Rgb { r: 60, g: 40, b: 20 },
            BlockType::Grass => Rgb { r: 20, g: 80, b: 20 },
            BlockType::Sand => Rgb { r: 90, g: 80, b: 60 },
            BlockType::Water => Rgb { r: 20, g: 40, b: 80 },
            BlockType::Wood => Rgb { r: 60, g: 30, b: 10 },
            BlockType::Leaves => Rgb { r: 10, g: 60, b: 10 },
            BlockType::Bedrock => Rgb { r: 10, g: 10, b: 10 },
        }
    }
}

} // verus!
