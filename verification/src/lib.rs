//! The core of a service on which users create, browse and rate places.
//!
//! Two things carry the invariants of the service, and both live here:
//!
//! * the way from a bearer token to a trusted identity: the key store in
//!   [`keys`], the token validator and the guard of the protected routes in
//!   [`auth`];
//! * the store of places and ratings in [`db`], with the place types in
//!   [`place`], the listing order in [`order`] and the model of the tables
//!   in [`tables`].
//!
//! [`laws`] states what holds across these functions. [`boundary`] holds
//! everything that is taken on trust from the crates that verify signatures,
//! read JSON and headers, and draw random identifiers.

pub mod auth;
pub mod boundary;
pub mod db;
pub mod keys;
pub mod laws;
pub mod order;
pub mod place;
pub mod tables;
