//! Terminal point-cloud viewer core: a Braille-dot raster, line drawing, text export of the
//! raster, and the parsers for the point file format, the command line and the command prompt.
pub mod args;
pub mod braille;
pub mod color;
pub mod guarantees;
pub mod command;
pub mod raster;
pub mod screen;
pub mod text;
pub mod trim;
pub mod layout;
pub mod palette;
pub mod pointfile;
