pub mod text;
pub mod model;
pub mod levels;
pub mod analysis;
pub mod name_generator;
pub mod playback;
pub mod paths;
pub mod validate_levels_toml;
pub mod solver;
pub mod verify;
pub mod playback_generator;
pub mod verify_all;
pub mod generate;
pub mod json_object;
pub mod sync_metadata;
pub mod profile;
pub mod toml_generator;
pub mod migration;
