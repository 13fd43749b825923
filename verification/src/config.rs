//! What a run is asked to do.
use std::path::PathBuf;
use vstd::prelude::*;

use crate::schema::SchemaKind;

verus! {

/// A path of the standard library. Nothing is known of what it holds.
#[verifier::external_type_specification]
#[verifier::external_body]
pub struct ExPathBuf(PathBuf);

pub struct Configuration {
    /// The path to the input file or directory.
    pub infile: Option<PathBuf>,
    /// The path to the output file.
    pub outfile: PathBuf,
    /// The data schema of the input.
    pub schema: SchemaKind,
    /// Print debug statements (when appropriate).
    pub debug: bool,
}

} // verus!
