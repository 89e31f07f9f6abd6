//! Compiles a declarative column-cleaning configuration into a CSV sanitisation pipeline
//! and runs it: per-column validation, repair policies, output expressions, process
//! chaining and run-length aggregation.
use vstd::prelude::*;

pub mod value;
pub mod text;
pub mod expr;
pub mod parse;
pub mod column;
pub mod process;
pub mod aggregate;
pub mod csv;
pub mod pipeline;
pub mod config;
pub mod laws;
pub mod congruence;

use crate::value::Value;
use crate::config::{
    Doc, ConfigError, load_program, program_map_ok, program_of_doc, error_path_in, error_view,
    program_error,
};
use crate::pipeline::{Failure, text_spec, all_view, program_wf};

verus! {

/// Why `sanitise` failed: the configuration, or the run.
#[derive(Debug)]
pub enum SanitiseError {
    Config(ConfigError),
    Run(Failure),
}

/// Loads the configuration `config` and runs `csv` through it. The result holds, per
/// CSV section processed, per process, the output vectors of its non-ignored columns.
/// It fails with a configuration error exactly when the configuration does not load, and
/// that error (issue, process, column) is the first the document gives.
pub fn sanitise(config: &Doc, csv: &str) -> (r: Result<Vec<Vec<Vec<Vec<Value>>>>, SanitiseError>)
    ensures
        r is Err && r->Err_0 is Config <==> !(config matches Doc::Mapping(m) && program_map_ok(m@)),
        r matches Err(SanitiseError::Config(e)) ==> error_path_in(e, *config),
        r matches Err(SanitiseError::Config(e)) ==> Some(error_view(e)) == program_error(*config),
        r matches Ok(o) ==> exists|p: crate::pipeline::Program|
            program_wf(p) && program_of_doc(p, *config) && text_spec(p, csv@) == Ok::<_, crate::pipeline::Stop>(
                all_view(o@),
            ),
        r matches Err(SanitiseError::Run(f)) ==> exists|p: crate::pipeline::Program|
            program_wf(p) && program_of_doc(p, *config) && text_spec(p, csv@) == Err::<
                Seq<Seq<Seq<Seq<crate::value::Val>>>>,
                _,
            >(crate::pipeline::stop_of(f)),
{
    let program = match load_program(config) {
        Ok(p) => p,
        Err(e) => return Err(SanitiseError::Config(e)),
    };
    match program.run_text(csv) {
        Ok(o) => Ok(o),
        Err(f) => Err(SanitiseError::Run(f)),
    }
}

} // verus!
