//! Reading orienteering maps saved as `.omap` files (XML): the tree of the
//! file, its colors, symbols and objects, the shapes and the picture drawn
//! from them, and the form in which a web viewer receives them.

pub mod map;
pub mod map_file;
pub mod text;
pub mod web_requests;
pub mod xml_objects;
