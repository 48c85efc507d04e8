//! Planning and bookkeeping for moving very large objects in and out of an
//! object store.
//!
//! Two things are done here, and neither makes a call to the store:
//!
//! * Large objects are built by composing copies of smaller ones.
//!   [`compose`] plans which compose calls a build needs, within the
//!   store's limit on the sources of one call; [`builder`] walks through
//!   the plan call by call and pins the generation of every source;
//!   [`tier`] and [`content`] say how large the objects are and what they
//!   hold.
//! * Large objects are downloaded in stripes. [`stripe`] partitions an
//!   object into byte ranges; [`fetch`] places the chunks of one stripe;
//!   [`dispatch`] bounds the stripes in flight; [`transfer`] pins the
//!   object's generation and folds the outcomes of the stripes into one
//!   result; [`assembly`] shows that the stripes, written in any order,
//!   give the object back.
//!
//! The caller performs the calls and the writes, and tells the library
//! what came of them.
//!
//! Around these stand a few smaller things that programs for the store
//! need: the resource names of buckets, folders and objects ([`names`],
//! [`text`]), the bytes of a seed object ([`seed`]), the checksum of a
//! payload ([`checksum`]), counting the lines of what was read
//! ([`lines`]), a source of upload data that fails on purpose
//! ([`source`]), and the steps of polling an operation ([`operation`])
//! and of rewriting an object ([`rewrite`]).

pub mod assembly;
pub mod builder;
pub mod checksum;
pub mod compose;
pub mod content;
pub mod dispatch;
pub mod error;
pub mod fetch;
pub mod lines;
pub mod names;
pub mod object;
pub mod operation;
pub mod rewrite;
pub mod seed;
pub mod source;
pub mod stripe;
pub mod text;
pub mod tier;
pub mod transfer;

pub use crate::names::bucket_id;
pub use crate::names::BUCKET_NAME;
pub use crate::names::PROJECT_ID;
