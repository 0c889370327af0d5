//! The numeric parameters of a world, and their validation.

use vstd::prelude::*;

verus! {

/// Height of a chunk, and of the world, in blocks, where no other is configured.
pub const CHUNK_HEIGHT: usize = 32;

/// Height of the world in blocks, where no other is configured.
pub const WORLD_HEIGHT: i32 = 32;

/// The highest level that water fills, where no other is configured.
pub const SEA_LEVEL: i32 = 16;

/// Radius, in chunks, within which chunks are loaded, where no other is
/// configured.
pub const RENDER_DISTANCE: i32 = 8;

/// How far beyond the load radius a chunk is kept, where no other is
/// configured.
pub const EVICTION_MARGIN: i32 = 2;

/// The largest side length that a chunk can have.
pub const MAX_CHUNK_SIZE: usize = 1024;

/// The largest height that a chunk can have.
pub const MAX_CHUNK_HEIGHT: usize = 4096;

/// The parameters that shape a world.
///
/// The world is as high as one chunk. Chunks within `render_distance` of the
/// observer are loaded; a loaded chunk is dropped once it is further than
/// `render_distance + eviction_margin` from the observer.
#[derive(Debug, Clone, Copy, PartialEq, Eq, Structural)]
pub struct WorldConfig {
    pub chunk_size: usize,
    pub chunk_height: usize,
    pub sea_level: i32,
    pub render_distance: i32,
    pub eviction_margin: i32,
}

/// Why a configuration is rejected: the first parameter, in the order of
/// the fields, that is out of range.
#[derive(Debug, Clone, Copy, PartialEq, Eq, Structural)]
pub enum ConfigError {
    /// `chunk_size` is zero or above `MAX_CHUNK_SIZE`.
    ChunkSize,
    /// `chunk_height` is zero or above `MAX_CHUNK_HEIGHT`.
    ChunkHeight,
    /// `sea_level` is negative or not below the world's height.
    SeaLevel,
    /// `render_distance` is negative.
    RenderDistance,
    /// `eviction_margin` is below two chunks.
    EvictionMargin,
}

impl WorldConfig {
    /// The first fault of a configuration, if it has one.
    pub open spec fn fault(self) -> Option<ConfigError> {
        if self.chunk_size < 1 || self.chunk_size > MAX_CHUNK_SIZE {
            Some(ConfigError::ChunkSize)
        } else if self.chunk_height < 1 || self.chunk_height > MAX_CHUNK_HEIGHT {
            Some(ConfigError::ChunkHeight)
        } else if self.sea_level < 0 || self.sea_level >= self.chunk_height {
            Some(ConfigError::SeaLevel)
        } else if self.render_distance < 0 {
            Some(ConfigError::RenderDistance)
        } else if self.eviction_margin < 2 {
            Some(ConfigError::EvictionMargin)
        } else {
            None
        }
    }

    /// A configuration is valid when every parameter is in range.
    pub open spec fn valid(self) -> bool {
        &&& 1 <= self.chunk_size <= MAX_CHUNK_SIZE
        &&& 1 <= self.chunk_height <= MAX_CHUNK_HEIGHT
        &&& 0 <= self.sea_level < self.chunk_height
        &&& 0 <= self.render_distance
        &&& 2 <= self.eviction_margin
    }

    /// The configuration with the default parameters.
    pub open spec fn standard() -> WorldConfig {
        WorldConfig {
            chunk_size: 8,
            chunk_height: 32,
            sea_level: 16,
            render_distance: 8,
            eviction_margin: 2,
        }
    }

    /// The height of the world in blocks.
    pub open spec fn world_height(self) -> int {
        self.chunk_height as int
    }

    /// Accepts a valid configuration and names the first fault of any other.
    pub fn validate(&self) -> (r: Result<(), ConfigError>)
        ensures
            r is Ok <==> self.valid(),
            r == (match self.fault() {
                Some(e) => Err::<(), ConfigError>(e),
                None => Ok::<(), ConfigError>(()),
            }),
    {
        if self.chunk_size < 1 || self.chunk_size > MAX_CHUNK_SIZE {
            Err(ConfigError::ChunkSize)
        } else if self.chunk_height < 1 || self.chunk_height > MAX_CHUNK_HEIGHT {
            Err(ConfigError::ChunkHeight)
        } else if self.sea_level < 0 || self.sea_level as i64 >= self.chunk_height as i64 {
            Err(ConfigError::SeaLevel)
        } else if self.render_distance < 0 {
            Err(ConfigError::RenderDistance)
        } else if self.eviction_margin < 2 {
            Err(ConfigError::EvictionMargin)
        } else {
            Ok(())
        }
    }
}

impl Default for WorldConfig {
    fn default() -> (c: Self)
        ensures
            c == WorldConfig::standard(),
            c.valid(),
    {
        WorldConfig {
            chunk_size: crate::coord::CHUNK_SIZE,
            chunk_height: CHUNK_HEIGHT,
            sea_level: SEA_LEVEL,
            render_distance: RENDER_DISTANCE,
            eviction_margin: EVICTION_MARGIN,
        }
    }
}

} // verus!
