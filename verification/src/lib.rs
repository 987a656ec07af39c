//! Spatial kernels over columns of geometries.
//!
//! A kernel takes one or two columns and answers every row: nothing for a null, else what the
//! function of PostGIS with that name gives. A native column keeps its coordinates in flat buffers
//! with offsets beside them; a mixed or serialized one keeps a geometry per row.
//!
//! # Numbers
//!
//! A coordinate is held as the 64 bits of a double. The order of two doubles, their equality, and
//! what is finite or not a number are read from the bits. What needs arithmetic on doubles (an area,
//! a distance, an orientation) comes from the caller as a function, and a contract says for which
//! arguments it is asked and what becomes of its answer.
//!
//! # Layout
//!
//! - [`number`], [`decimal`], [`lists`]: the bits of a double, decimal text, copies of lists.
//! - [`geometry`], [`column`], [`crs`], [`error`], [`materialize`]: the data.
//! - [`bbox`], [`buckets`], [`index`], [`ring`]: boxes, the packed index, the walk round a ring.
//! - [`rows`], [`operand`], [`builder`]: the loops over one and two columns, and their output.
//! - [`predicate`], [`matrix`], [`measure`], [`linear`], [`accessor`], [`envelope`], [`component`],
//!   [`constructor`], [`edit`], [`process`], [`tessellate`], [`transform`], [`affine`],
//!   [`reproject`], [`io`]: the kernels.
//! - [`layout`]: which encoded values a mixed column can take.
//! - [`agreement`]: the fast paths of a predicate answer as the plain test does.
//! - [`aggregate`], [`cluster`]: functions of many rows.
//! - [`call`]: the rules of a call: constants, row counts, coordinate reference systems.
//! - [`relation`], [`region`], [`coordinates`], [`quantity`], [`derived`], [`place`], [`bounds`],
//!   [`ordinates`], [`format`], [`system`], [`answers`], [`naming`]: what the kernels mean. Each law
//!   there reads a kernel against something plainer: positions, exact numbers, lists of coordinates,
//!   bytes.

pub mod number;
pub mod lists;
pub mod geometry;
pub mod bbox;
pub mod buckets;
pub mod index;
pub mod ring;
pub mod decimal;
pub mod column;
pub mod crs;
pub mod error;
pub mod materialize;
pub mod rows;
pub mod accessor;
pub mod transform;
pub mod affine;
pub mod operand;
pub mod measure;
pub mod matrix;
pub mod predicate;
pub mod agreement;
pub mod builder;
pub mod component;
pub mod envelope;
pub mod constructor;
pub mod edit;
pub mod aggregate;
pub mod process;
pub mod linear;
pub mod tessellate;
pub mod cluster;
pub mod layout;
pub mod io;
pub mod reproject;
pub mod call;
pub mod relation;
pub mod region;
pub mod coordinates;
pub mod quantity;
pub mod derived;
pub mod place;
pub mod bounds;
pub mod ordinates;
pub mod format;
pub mod system;
pub mod answers;
pub mod naming;
