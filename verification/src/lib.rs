//! Two code generators that work on the structure of a declaration, with
//! their results proved against what they are meant to do.
//!
//! The first derives a builder for a record: [`builder::derive`] classifies
//! every member by the outermost shape of its type and by its annotations,
//! and gives the declarations of the builder type, its construction, its
//! setters and its finalize operation. [`runtime`] says what those
//! declarations do when they run, and [`behavior`] proves what follows for
//! every record.
//!
//! The second checks that the variants of a tagged union are declared in
//! lexicographic order: [`sorted::sorted`] hands the declaration back
//! unchanged, with a diagnostic for the first variant that is out of order.
//!
//! Neither reads source text nor prints it: both take a declaration as
//! [`schema`] describes it and give plain values back.

pub mod annotation;
pub mod behavior;
pub mod builder;
pub mod diagnostic;
pub mod plan;
pub mod runtime;
pub mod schema;
pub mod search;
pub mod shape;
pub mod sorted;
pub mod text;
