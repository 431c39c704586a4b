//! The pipeline: from the module cache of a program to its artifacts.

use vstd::prelude::*;

use crate::bind_graph_init::{graph_of, init};
use crate::bind_init::{distinct_paths, ParsedModuleCache};
use crate::config::CompileOpt;
use crate::emit::{emit, emitted_files, file_name, files_view, needs_root_name, OutputFile};
use crate::error::BindGenError;
use crate::graph_reduce::{dangling, reduce, reduced, DanglingExport};
use crate::strictness::{find_unsupported_types, unsupported_types, TypeDiagnostic};
use crate::ts_flavor::{compatible, detect, features_of, missing, Feature};
use crate::type_construction::Program;
use crate::typify_graph::{typed_of, typify};

verus! {

/// Why a run produced no artifacts.
#[derive(Debug, PartialEq, Eq)]
pub enum GenError {
    /// A module could not be bound.
    GraphInit(BindGenError),
    /// The program uses features that the target flavor does not
    /// support.
    Compatibility(Vec<Feature>),
}

/// What a run produced: the artifacts, and the reports of the exports
/// that lead to no declaration.
#[derive(Debug, PartialEq, Eq)]
pub struct Generated {
    pub files: Vec<OutputFile>,
    pub dangling: Vec<DanglingExport>,
    /// Under strictness, the annotations that were taken for `any`.
    pub unsupported: Vec<TypeDiagnostic>,
}

/// The program of a cache whose modules can be bound: its modules, and
/// their binding graph, reduced.
pub open spec fn program_of(cache: ParsedModuleCache) -> Program {
    Program { modules: cache.modules@, graph: reduced(graph_of(cache.modules@)->Ok_0) }
}

/// Runs the stages in order, on a cache that holds no path twice: the binding graph of the cache is built,
/// reduced and typified; the features that the typed graph uses are held
/// against those of the target flavor; the artifacts are computed from the
/// typed graph, walked from the root of the cache. The first stage that
/// fails ends the run with its error. Under strictness the annotations
/// that typification takes for `any` are reported beside the artifacts.
pub fn gen(options: &CompileOpt, cache: &ParsedModuleCache) -> (r: Result<Generated, GenError>)
    requires
        distinct_paths(cache.modules@),
        needs_root_name(*options) ==> file_name(cache.root@).len() > 0,
    ensures
        match graph_of(cache.modules@) {
            Err(e) => r == Err::<Generated, GenError>(GenError::GraphInit(e)),
            Ok(g) => {
                let typed = typed_of(program_of(*cache));
                let errors = missing(features_of(typed), options.ts_flavor.supported());
                if errors.len() > 0 {
                    r matches Err(GenError::Compatibility(found)) && found@ == errors
                } else {
                    &&& r matches Ok(done)
                    &&& files_view(done.files@) == emitted_files(*options, cache.root@, typed)
                    &&& done.dangling@ == dangling(g)
                    &&& done.unsupported@ == if options.strict {
                        unsupported_types(program_of(*cache))
                    } else {
                        Seq::empty()
                    }
                }
            },
        },
{
    let graph = match init(cache) {
        Ok(g) => g,
        Err(e) => {
            return Err(GenError::GraphInit(e));
        },
    };
    let (graph, dangling) = reduce(graph);
    let unsupported = if options.strict {
        find_unsupported_types(&cache.modules, &graph)
    } else {
        Vec::new()
    };
    let typed_graph = typify(cache, graph);

    let detected_ts = detect(&typed_graph);
    let target_ts = options.ts_flavor.features();
    match compatible(&detected_ts, &target_ts) {
        Ok(()) => {},
        Err(errors) => {
            return Err(GenError::Compatibility(errors));
        },
    }

    let files = emit(options, &cache.root, &typed_graph);
    Ok(Generated { files, dangling, unsupported })
}

} // verus!
