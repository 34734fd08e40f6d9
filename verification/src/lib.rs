//! Synthesis of the operator-binding matrix for pattern-construction types.
//!
//! A concrete type enters the system tagged `Atom` or `Component`.  For each
//! such type the engine enumerates, over a fixed promotion rule table, every
//! operator binding the type is owed against every partner that satisfies the
//! `Element` capability (other registered types, the primitive stand-ins
//! `char`, `&str`, `String`, and the composite result type `Rec`), and closes
//! the matrix under order reversal for primitive partners, so that every
//! operation is available in both operand orders while every emitted binding
//! keeps the locally registered type on at least one side.

pub mod engine;
pub mod laws;
pub mod model;
pub mod table;
