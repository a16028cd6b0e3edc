//! Extraction and sampling of points from a streamed map dataset.
//!
//! Coordinates are held as integers in units of 1e-7 degree, which is the
//! resolution in which map datasets store node positions.
pub mod extractor;
pub mod game_logic;
pub mod location;
pub mod location_generator;
pub mod boundary;
pub mod element;
pub mod error;
pub mod polygon;
pub mod record;
pub mod roads;
pub mod sampling;
