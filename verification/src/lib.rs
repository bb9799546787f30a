//! Reconciles the names of metadata sidecars with the names of the media
//! files they describe, and plans the writing of their timestamps.

pub mod file_utils;
pub mod fix_stupid_google_photos_takeout_naming_bug;
pub mod metadata_utils;
pub mod preflight;
pub mod resolver;
pub mod sidecar;
pub mod text;

pub use fix_stupid_google_photos_takeout_naming_bug::{
    fix_image_file_path_by_fix_0, get_new_image_file_path_by_swap_position, strip_json_suffix,
    swap_file_name_str_position, swap_position,
};
