//! Gravity engine: the verified core of a 2D physics sandbox.

pub mod modes;
pub mod shuffle;
pub mod text;
pub mod buttons;
pub mod playlist;
pub mod images;
pub mod gif_anim;
pub mod menus;
pub mod audio;
pub mod scene;
pub mod input;
