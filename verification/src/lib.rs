//! Voxel world logic: chunk storage with a block palette, meshing, lighting,
//! chunk bookkeeping around players, and the framing of chunk data on the wire.
use vstd::prelude::*;

pub mod block_mesh;
pub mod borders;
pub mod chunk;
pub mod example;
pub mod generation;
pub mod math;
pub mod meshing;
pub mod palette;
pub mod storage;
pub mod voxel;
pub mod world;
pub mod network;
pub mod input;
pub mod sync;
