use vstd::prelude::*;
use crate::error::BuildError;
use crate::types::{ImportRecordId, ModuleId, NormalModuleBuilder, ResolvedRequestInfo, SymbolMap};

verus! {

/// What loading one module produced: handed to the loader once per module.
pub struct NormalModuleTaskResult {
    pub module_id: ModuleId,
    pub symbol_map: SymbolMap,
    pub resolved_deps: Vec<(ImportRecordId, ResolvedRequestInfo)>,
    pub errors: Vec<BuildError>,
    pub warnings: Vec<BuildError>,
    pub builder: NormalModuleBuilder,
}

} // verus!
