//! Reading and writing of MagicaVoxel `.vox` scenes.
//!
//! The library keeps a scene exactly as the file format stores it: transforms are
//! cardinal rotations with integer translations, and the decimal text of scalar
//! material, camera and sun properties is kept as it was read, once checked to be
//! the text of a float.
#![allow(unused_imports)]

pub mod bake;
pub mod bytes;
pub mod chunk_writers;
pub mod chunks;
pub mod dict;
pub mod file_round_trip;
pub mod file_writer;
pub mod float_text;
pub mod index_map;
pub mod material_chunks;
pub mod merge;
pub mod models;
pub mod node_chunks;
pub mod palette_merge;
pub mod nodes;
pub mod read;
pub mod reader;
pub mod round_trip;
pub mod scene;
pub mod scene_merge;
pub mod scene_writer;
pub mod text;
pub mod transform;
pub mod types;
pub mod writer;

pub use file_writer::write_scene;
pub use reader::read_scene;
pub use scene::{
    flatten_groups, normalize_scene_graph, validate_scene_references, AnimTransform, Camera, Group,
    Instance, KeyframeTransform, Material, ScalarText, Scene, Sun, TransformSample,
    sample_anim_transform,
};
pub use transform::CardinalTransform;
pub use types::{
    compute_looped_frame_index, rotate_palette_right, sample_anim_model, AnimModel, CameraMode,
    KeyframeModel, Layer, MaterialType, MediaType, Model, Palette, ReadOptions, Rgba, VoxError,
    DEFAULT_PALETTE_RAW,
};
