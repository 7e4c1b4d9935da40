use vstd::prelude::*;

verus! {

/// Identity of a module within one scan: its index in the module arena.
pub type ModuleId = usize;

/// Identity of one outgoing edge within its importing module.
pub type ImportRecordId = usize;

/// What resolving a specifier produced: a canonical path and whether the
/// target is left outside the bundle.
pub struct ResolvedRequestInfo {
    pub path: String,
    pub is_external: bool,
}

impl ResolvedRequestInfo {
    pub fn new(path: String, is_external: bool) -> (r: ResolvedRequestInfo)
        ensures
            r.path == path,
            r.is_external == is_external,
    {
        ResolvedRequestInfo { path, is_external }
    }
}

/// One user-declared entry: an optional output name and its specifier.
pub struct InputItem {
    pub name: Option<String>,
    pub import: String,
}

impl InputItem {
    pub fn new(name: Option<String>, import: String) -> (r: InputItem)
        ensures
            r.name == name,
            r.import == import,
    {
        InputItem { name, import }
    }
}

/// A resolved entry: the user's output name and the module it designates.
pub struct EntryPoint {
    pub name: Option<String>,
    pub module_id: ModuleId,
}

/// The bindings declared in one module's top-level scope.
pub struct SymbolMap {
    pub names: Vec<String>,
}

impl SymbolMap {
    pub fn new(names: Vec<String>) -> (r: SymbolMap)
        ensures
            r.names == names,
    {
        SymbolMap { names }
    }

    pub fn empty() -> (r: SymbolMap)
        ensures
            r.names@ == Seq::<String>::empty(),
    {
        SymbolMap { names: Vec::new() }
    }
}

/// The scan-wide symbol table: entry `i` belongs to module `i`.
pub struct Symbols {
    pub tables: Vec<SymbolMap>,
}

/// Where the synthetic runtime module stands in the module arena.
pub struct RuntimeModuleBrief {
    pub id: ModuleId,
}

/// The partial representation of a loaded module, finished by later stages.
pub struct NormalModuleBuilder {
    pub source: String,
}

/// One recorded outgoing edge of a loaded module.
pub struct ImportRecord {
    pub id: ImportRecordId,
    pub resolved_module: ModuleId,
}

pub struct NormalModule {
    pub id: ModuleId,
    pub path: String,
    pub import_records: Vec<ImportRecord>,
    pub builder: NormalModuleBuilder,
}

/// A module kept outside the bundle: a leaf of the graph, never loaded.
pub struct ExternalModule {
    pub id: ModuleId,
    pub path: String,
}

pub enum Module {
    Normal(NormalModule),
    External(ExternalModule),
}

impl Module {
    pub open spec fn id_spec(&self) -> ModuleId {
        match self {
            Module::Normal(m) => m.id,
            Module::External(m) => m.id,
        }
    }

    pub open spec fn path_spec(&self) -> Seq<char> {
        match self {
            Module::Normal(m) => m.path@,
            Module::External(m) => m.path@,
        }
    }

    pub fn id(&self) -> (r: ModuleId)
        ensures
            r == self.id_spec(),
    {
        match self {
            Module::Normal(m) => m.id,
            Module::External(m) => m.id,
        }
    }

    pub fn path(&self) -> (r: &String)
        ensures
            r@ == self.path_spec(),
    {
        match self {
            Module::Normal(m) => &m.path,
            Module::External(m) => &m.path,
        }
    }
}

pub type ModuleVec = Vec<Module>;

} // verus!
