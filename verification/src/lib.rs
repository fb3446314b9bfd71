//! Query engine for a catalogue of world wonders.
//!
//! The catalogue is a fixed set of records, each a [`data::Wonder`]. It is
//! built once by [`dataset::Dataset::load`], which takes the records only if
//! they meet the rules of [`validate`], and it is read-only from then on.
//!
//! A request is answered by the functions of [`service`], which filter the
//! catalogue ([`query`]), put what is left in order ([`sort`]) or pick one
//! wonder of it ([`pick`]). What these functions return is stated in their
//! contracts, over the sequence of records that the catalogue holds; the
//! properties that hold of them together are proved beside them.
//!
//! The library neither reads files nor serves requests: it is handed plain
//! values and hands plain values back.

pub mod config;
pub mod data;
pub mod dataset;
pub mod error;
pub mod pick;
pub mod query;
pub mod sequences;
pub mod service;
pub mod sort;
pub mod text;
pub mod validate;
