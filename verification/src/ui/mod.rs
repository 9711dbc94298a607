//! The viewer: the camera over the board, the side panel's tabs and how input
//! drives them.

pub mod input;
pub mod render;


pub use input::{is_quit_key, InputEvent, Key};
pub use render::{viewport_size, Camera, SideTab};
