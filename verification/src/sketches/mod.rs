//! The integer logic of the individual sketches.
pub mod render_texture_template;
pub mod slime_mold_loop;
pub mod sprite_assets;
pub mod sprite_grid;
