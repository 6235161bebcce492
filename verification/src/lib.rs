//! Decoding and walking of grid-aligned path graphs.
//!
//! A path file is a cursor byte followed by point records. Each record holds
//! two variable-length coordinates and a mask of the compass octants in which
//! an edge leaves the point. A walk moves a cursor along those edges under a
//! fixed priority of directions until it halts, forks or meets an illegal
//! junction.

pub mod byte_buffer;
pub mod canvas;
pub mod cursor_images;
pub mod decode;
pub mod direction;
pub mod make_image;
pub mod path;
pub mod utility;
pub mod varint;
