use vstd::prelude::*;

verus! {

/// What a run is asked to do: the input archive, the output archive, an
/// optional filter file, and optional metadata overrides.
#[derive(Debug, Clone)]
pub struct Args {
    pub input: String,
    pub output: String,
    pub filter: Option<String>,
    pub name: Option<String>,
    pub description: Option<String>,
    pub attribution: Option<String>,
}

} // verus!
