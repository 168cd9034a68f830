//! Reading and writing geometries in the Well-Known Text (WKT) format.
//!
//! Text is read by [`Wkt::from_str`], which tokenizes the input and parses it
//! by recursive descent into a [`Wkt`] tree; a tree is written back with
//! [`Wkt::wkt_string`]. Both directions are specified over the spec functions
//! of the [`tokenizer`], [`parser`] and [`writer`] modules; the laws that tie
//! them together are proved in [`laws`] and [`round_trip`]. [`conversion`]
//! reads a text as a geometry of a requested kind, and [`geo`] reads
//! geometries shaped like those of the geo-types crate into the tree.

mod num;
pub mod types;
pub mod tokenizer;
pub mod parser;
pub mod writer;
pub mod laws;
pub mod round_trip;
pub mod conversion;
pub mod geo;


pub use crate::conversion::{Error, TryFromWkt};
pub use crate::num::WktNum;
pub use crate::types::{
    Coord, Dimension, GeometryCollection, LineString, MultiLineString, MultiPoint, MultiPolygon,
    Point, Polygon, Wkt,
};
