//! Overlap index over structural-variant reference datasets, partitioned by
//! chromosome and genome release.

pub mod chrom;
pub mod clinvar;
pub mod error;
pub mod laws;
pub mod schema;
pub mod server;
pub mod tree;
