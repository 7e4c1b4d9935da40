use vstd::prelude::*;
use crate::error::{BatchedErrors, BatchedResult, BuildError};
use crate::task_result::NormalModuleTaskResult;
use crate::types::{
    EntryPoint, ExternalModule, ImportRecord, ImportRecordId, Module, ModuleId, NormalModule,
    ResolvedRequestInfo, RuntimeModuleBrief, SymbolMap, Symbols,
};

verus! {

/// The path under which the synthetic runtime module is known.
pub const RUNTIME_MODULE_PATH: &'static str = "rolldown:runtime";

/// The runtime module's path as a sequence of characters.
pub open spec fn runtime_path() -> Seq<char> {
    RUNTIME_MODULE_PATH@
}

/// One module to resolve, load and parse; its result goes back to the loader.
pub struct LoadTask {
    pub module_id: ModuleId,
    pub path: String,
    pub is_entry: bool,
}

/// The coordinator of a scan. Entry `i` of `paths`, `modules` and `symbols`
/// all belong to module `i`; a `None` module is scheduled and not yet loaded.
pub struct ModuleLoader {
    pub paths: Vec<String>,
    pub modules: Vec<Option<Module>>,
    pub symbols: Vec<SymbolMap>,
    pub entry_points: Vec<EntryPoint>,
    pub runtime: Option<ModuleId>,
    pub warnings: Vec<BuildError>,
    pub errors: BatchedErrors,
}

/// The finished graph as the loader hands it out.
pub struct ModuleLoaderOutput {
    pub modules: Vec<Module>,
    pub entry_points: Vec<EntryPoint>,
    pub symbols: Symbols,
    pub runtime: RuntimeModuleBrief,
    pub warnings: Vec<BuildError>,
}

impl ModuleLoader {
    pub open spec fn len(&self) -> nat {
        self.paths@.len()
    }

    pub open spec fn path_of(&self, i: int) -> Seq<char> {
        self.paths@[i]@
    }

    pub open spec fn has_path(&self, p: Seq<char>) -> bool {
        exists|i: int| 0 <= i < self.len() && #[trigger] self.path_of(i) == p
    }

    pub open spec fn is_pending(&self, i: int) -> bool {
        0 <= i < self.len() && self.modules@[i] is None
    }

    pub open spec fn all_loaded(&self) -> bool {
        forall|i: int| 0 <= i < self.len() ==> !(#[trigger] self.is_pending(i))
    }

    /// The recorded edges of module `i`.
    pub open spec fn edges_of(&self, i: int) -> Seq<ImportRecord> {
        edges(self.modules@[i])
    }

    pub open spec fn wf(&self) -> bool {
        &&& arena_wf(self.paths@, self.modules@, self.symbols@)
        &&& forall|e: int|
            0 <= e < self.entry_points@.len() ==> (#[trigger] self.entry_points@[e]).module_id
                < self.len()
        &&& self.runtime matches Some(r) ==> {
            &&& r < self.len()
            &&& self.path_of(r as int) == runtime_path()
            &&& !(self.modules@[r as int] matches Some(Module::External(_)))
        }
    }

    /// Module `i` is the target of an edge of a module that came before it.
    pub open spec fn reached_before(&self, i: int) -> bool {
        exists|j: int, k: int|
            0 <= j < i && 0 <= k < self.edges_of(j).len() && (#[trigger] self.edges_of(j)[k]).resolved_module
                == i
    }

    /// Every module is a root, or was reached through an edge of an earlier one.
    pub open spec fn derived_from(&self, is_root: spec_fn(Seq<char>) -> bool) -> bool {
        forall|i: int| 0 <= i < self.len() ==> is_root(#[trigger] self.path_of(i)) || self.reached_before(i)
    }

    /// Every module agrees with a collaborator that answers the same for the
    /// same path: whether it is external, and, once loaded, where its edges
    /// lead, in order.
    pub open spec fn follows(
        &self,
        deps_of: spec_fn(Seq<char>) -> Seq<Seq<char>>,
        is_external: spec_fn(Seq<char>) -> bool,
    ) -> bool {
        forall|i: int|
            0 <= i < self.len() ==> {
                &&& ((#[trigger] self.modules@[i]) matches Some(Module::External(_)))
                    == is_external(self.path_of(i))
                &&& (self.modules@[i] matches Some(Module::Normal(_))) ==> {
                    &&& self.edges_of(i).len() == deps_of(self.path_of(i)).len()
                    &&& forall|k: int|
                        0 <= k < self.edges_of(i).len() ==> self.path_of(
                            (#[trigger] self.edges_of(i)[k]).resolved_module as int,
                        ) == deps_of(self.path_of(i))[k]
                }
            }
    }

    /// Module `i` is pending exactly when the first of `sources` with its
    /// path is not external; otherwise it is recorded as external.
    pub open spec fn kind_from(&self, sources: Seq<(Seq<char>, bool)>, i: int) -> bool {
        exists|k: int|
            #[trigger] first_with(sources, self.path_of(i), k) && (self.is_pending(i)
                <==> !sources[k].1)
    }

    /// From `old` to `self`, new modules were scheduled for paths among
    /// `sources`, and `tasks` are exactly the loads they call for; the modules
    /// that were there stay as they were, but for `except`.
    pub open spec fn spawned_from(
        &self,
        old: &ModuleLoader,
        sources: Seq<(Seq<char>, bool)>,
        tasks: Seq<LoadTask>,
        except: int,
    ) -> bool {
        &&& old.len() <= self.len()
        &&& forall|i: int| 0 <= i < old.len() ==> #[trigger] self.paths@[i] == old.paths@[i]
        &&& forall|i: int|
            0 <= i < old.len() && i != except ==> #[trigger] self.modules@[i] == old.modules@[i]
        &&& forall|i: int|
            0 <= i < old.len() && i != except ==> #[trigger] self.symbols@[i] == old.symbols@[i]
        &&& forall|i: int| old.len() <= i < self.len() ==> #[trigger] self.kind_from(sources, i)
        &&& forall|k: int| 0 <= k < sources.len() ==> self.has_path((#[trigger] sources[k]).0)
        &&& forall|t: int, u: int|
            0 <= t < u < tasks.len() ==> (#[trigger] tasks[t]).module_id != (
            #[trigger] tasks[u]).module_id
        &&& forall|i: int|
            old.len() <= i < self.len() ==> (#[trigger] self.symbols@[i]).names@.len() == 0
        &&& forall|t: int|
            0 <= t < tasks.len() ==> {
                &&& old.len() <= (#[trigger] tasks[t]).module_id < self.len()
                &&& self.is_pending(tasks[t].module_id as int)
                &&& tasks[t].path@ == self.path_of(tasks[t].module_id as int)
            }
        &&& forall|i: int|
            old.len() <= i < self.len() && #[trigger] self.is_pending(i) ==> exists|t: int|
                0 <= t < tasks.len() && tasks[t].module_id == i
        &&& forall|i: int|
            old.len() <= i < self.len() && !self.is_pending(i) ==> (
            #[trigger] self.modules@[i]) matches Some(Module::External(_))
    }

    pub fn new() -> (r: ModuleLoader)
        ensures
            r.wf(),
            r.len() == 0,
            r.entry_points@.len() == 0,
            r.runtime is None,
            r.warnings@.len() == 0,
            r.errors.errors@.len() == 0,
    {
        ModuleLoader {
            paths: Vec::new(),
            modules: Vec::new(),
            symbols: Vec::new(),
            entry_points: Vec::new(),
            runtime: None,
            warnings: Vec::new(),
            errors: BatchedErrors::new(),
        }
    }

    /// The id already given to `path`, if any.
    pub fn find_module(&self, path: &String) -> (r: Option<ModuleId>)
        ensures
            match r {
                Some(i) => i < self.len() && self.path_of(i as int) == path@,
                None => !self.has_path(path@),
            },
    {
        let mut i: usize = 0;
        while i < self.paths.len()
            invariant
                i <= self.paths@.len(),
                forall|j: int| 0 <= j < i ==> self.path_of(j) != path@,
            decreases self.paths@.len() - i,
        {
            if self.paths[i] == *path {
                return Some(i);
            }
            i = i + 1;
        }
        None
    }

    /// Gives the resolved target an id unless it has one; a new target that
    /// is not external gets a load task, an external one is recorded as a leaf.
    pub fn try_spawn_new_task(&mut self, info: &ResolvedRequestInfo, is_entry: bool) -> (r: (
        ModuleId,
        Option<LoadTask>,
    ))
        requires
            old(self).wf(),
        ensures
            final(self).wf(),
            r.0 < final(self).len(),
            final(self).path_of(r.0 as int) == info.path@,
            old(self).has_path(info.path@) ==> r.0 < old(self).len() && r.1 is None
                && final(self).paths@ == old(self).paths@ && final(self).modules@
                == old(self).modules@ && final(self).symbols@ == old(self).symbols@,
            !old(self).has_path(info.path@) ==> r.0 == old(self).len() && final(self).len()
                == old(self).len() + 1 && (r.1 is Some <==> !info.is_external),
            r.1 matches Some(t) ==> t.module_id == r.0 && t.is_entry == is_entry,
            final(self).spawned_from(
                old(self),
                seq![(info.path@, info.is_external)],
                task_seq(r.1),
                -1,
            ),
            final(self).entry_points@ == old(self).entry_points@,
            final(self).runtime == old(self).runtime,
            final(self).warnings@ == old(self).warnings@,
            final(self).errors == old(self).errors,
    {
        match self.find_module(&info.path) {
            Some(id) => {
                proof {
                    assert(self.path_of(id as int) == info.path@);
                }
                (id, None)
            },
            None => {
                let ghost pre = *self;
                let id = self.paths.len();
                self.paths.push(info.path.clone());
                self.symbols.push(SymbolMap::empty());
                let r = if info.is_external {
                    let ext = ExternalModule { id, path: info.path.clone() };
                    self.modules.push(Some(Module::External(ext)));
                    (id, None)
                } else {
                    self.modules.push(None);
                    let task = LoadTask { module_id: id, path: info.path.clone(), is_entry };
                    (id, Some(task))
                };
                proof {
                    assert forall|i: int| 0 <= i < pre.len() implies self.paths@[i]@
                        != info.path@ by {
                        if pre.paths@[i]@ == info.path@ {
                            assert(pre.path_of(i) == info.path@);
                        }
                    }
                    assert forall|i: int, j: int| 0 <= i < j < self.len() implies (
                    #[trigger] self.paths@[i])@ != (#[trigger] self.paths@[j])@ by {
                        assert(self.paths@[i] == pre.paths@[i]);
                        if j < pre.len() {
                            assert(self.paths@[j] == pre.paths@[j]);
                        }
                    }
                    assert forall|i: int|
                        0 <= i < self.len() && (#[trigger] self.modules@[i]) is Some implies {
                            &&& self.modules@[i]->0.id_spec() == i
                            &&& self.modules@[i]->0.path_spec() == self.paths@[i]@
                        } by {
                        if i < pre.len() {
                            assert(pre.modules@[i] == self.modules@[i]);
                            assert(pre.paths@[i] == self.paths@[i]);
                        }
                    }
                    assert forall|i: int, k: int|
                        0 <= i < self.len() && 0 <= k < edges(self.modules@[i]).len() implies (
                        #[trigger] edges(self.modules@[i])[k]).resolved_module < self.len() by {
                        if i < pre.len() {
                            assert(pre.modules@[i] == self.modules@[i]);
                        }
                    }
                    if let Some(rt) = self.runtime {
                        assert(self.modules@[rt as int] == pre.modules@[rt as int]);
                        assert(self.paths@[rt as int] == pre.paths@[rt as int]);
                    }
                    assert(self.wf());
                    assert(forall|i: int| 0 <= i < pre.len() ==> self.modules@[i] == pre.modules@[i]);
                    assert(forall|i: int| 0 <= i < pre.len() ==> self.symbols@[i] == pre.symbols@[i]);
                    assert(forall|i: int| 0 <= i < pre.len() ==> self.paths@[i] == pre.paths@[i]);
                    assert(first_with(seq![(info.path@, info.is_external)], self.path_of(id as int), 0));
                    assert(self.kind_from(seq![(info.path@, info.is_external)], id as int));
                    assert(self.path_of(id as int) == info.path@);
                    assert(r.1 matches Some(t) ==> seq![t][0] == t);
                }
                r
            },
        }
    }

    /// Schedules the synthetic runtime module; it comes before any user entry.
    pub fn try_spawn_runtime_module_task(&mut self) -> (r: Option<LoadTask>)
        requires
            old(self).wf(),
            old(self).runtime is None ==> old(self).len() == 0,
        ensures
            final(self).wf(),
            final(self).runtime is Some,
            old(self).runtime is Some ==> r is None && *final(self) == *old(self),
            old(self).runtime is None ==> (r matches Some(t) && t.module_id == 0 && !t.is_entry
                && t.path@ == runtime_path()),
            old(self).runtime is None ==> final(self).runtime == Some(0usize) && final(self).len()
                == 1 && final(self).path_of(0) == runtime_path() && final(self).is_pending(0),
            old(self).runtime is None ==> final(self).spawned_from(
                old(self),
                seq![(runtime_path(), false)],
                task_seq(r),
                -1,
            ),
            final(self).entry_points@ == old(self).entry_points@,
            final(self).warnings@ == old(self).warnings@,
            final(self).errors == old(self).errors,
    {
        if self.runtime.is_some() {
            return None;
        }
        let info = ResolvedRequestInfo { path: RUNTIME_MODULE_PATH.to_owned(), is_external: false };
        let (id, task) = self.try_spawn_new_task(&info, false);
        proof {
            assert(!old(self).has_path(info.path@));
            assert(task_seq(task)[0] == task->0);
            assert(seq![(info.path@, info.is_external)] == seq![(runtime_path(), false)]);
        }
        let ghost spawned = *self;
        self.runtime = Some(id);
        proof {
            lemma_spawned_from_frame(&spawned, self, old(self), seq![(runtime_path(), false)], task_seq(task), -1);
        }
        task
    }

    /// Gives each resolved entry an id, in the order declared, and records it
    /// as an entry point.
    pub fn add_entries(&mut self, entries: &Vec<(Option<String>, ResolvedRequestInfo)>) -> (tasks:
        Vec<LoadTask>)
        requires
            old(self).wf(),
            old(self).runtime is Some,
        ensures
            final(self).wf(),
            final(self).spawned_from(old(self), entry_paths(entries@), tasks@, -1),
            final(self).entry_points@.len() == old(self).entry_points@.len() + entries@.len(),
            forall|e: int|
                0 <= e < old(self).entry_points@.len() ==> #[trigger] final(self).entry_points@[e]
                    == old(self).entry_points@[e],
            forall|k: int|
                0 <= k < entries@.len() ==> {
                    let ep = #[trigger] final(self).entry_points@[old(self).entry_points@.len() + k];
                    &&& ep.name == entries@[k].0
                    &&& final(self).path_of(ep.module_id as int) == entries@[k].1.path@
                },
            final(self).runtime == old(self).runtime,
            final(self).warnings@ == old(self).warnings@,
            final(self).errors == old(self).errors,
    {
        let ghost pre = *self;
        let ghost n0 = self.entry_points@.len();
        let mut tasks: Vec<LoadTask> = Vec::new();
        let mut i: usize = 0;
        while i < entries.len()
            invariant
                i <= entries@.len(),
                self.wf(),
                pre.wf(),
                self.spawned_from(&pre, entry_paths(entries@).take(i as int), tasks@, -1),
                self.entry_points@.len() == n0 + i,
                n0 == pre.entry_points@.len(),
                forall|e: int| 0 <= e < n0 ==> #[trigger] self.entry_points@[e] == pre.entry_points@[e],
                forall|k: int|
                    0 <= k < i ==> {
                        let ep = #[trigger] self.entry_points@[n0 + k];
                        &&& ep.name == entries@[k].0
                        &&& self.path_of(ep.module_id as int) == entries@[k].1.path@
                    },
                self.runtime == pre.runtime,
                self.warnings@ == pre.warnings@,
                self.errors == pre.errors,
            decreases entries@.len() - i,
        {
            let ghost mid = *self;
            let ghost mid_tasks = tasks@;
            let (id, task) = self.try_spawn_new_task(&entries[i].1, true);
            let ghost step_tasks = task_seq(task);
            let ghost spawned = *self;
            if let Some(t) = task {
                tasks.push(t);
            }
            let name = clone_name(&entries[i].0);
            self.entry_points.push(EntryPoint { name, module_id: id });
            proof {
                assert forall|e: int| 0 <= e < self.entry_points@.len() implies (
                #[trigger] self.entry_points@[e]).module_id < self.len() by {
                    if e < self.entry_points@.len() - 1 {
                        assert(self.entry_points@[e] == mid.entry_points@[e]);
                    }
                }
                assert(mid.wf());
                assert(self.modules@ == spawned.modules@);
                assert(self.paths@ == spawned.paths@);
                assert(self.symbols@ == spawned.symbols@);
                assert(self.runtime == spawned.runtime);
                assert(self.wf());
                lemma_spawned_from_frame(
                    &spawned,
                    self,
                    &mid,
                    seq![(entries@[i as int].1.path@, entries@[i as int].1.is_external)],
                    step_tasks,
                    -1,
                );
                assert(tasks@ == mid_tasks + step_tasks);
                assert(entry_paths(entries@).take(i + 1) == entry_paths(entries@).take(i as int)
                    + seq![(entries@[i as int].1.path@, entries@[i as int].1.is_external)]);
                lemma_spawned_from_trans(
                    &pre,
                    &mid,
                    self,
                    entry_paths(entries@).take(i as int),
                    seq![(entries@[i as int].1.path@, entries@[i as int].1.is_external)],
                    mid_tasks,
                    step_tasks,
                );
                assert forall|k: int| 0 <= k < i + 1 implies {
                    let ep = #[trigger] self.entry_points@[n0 + k];
                    &&& ep.name == entries@[k].0
                    &&& self.path_of(ep.module_id as int) == entries@[k].1.path@
                } by {
                    if k < i {
                        let ep = mid.entry_points@[n0 + k];
                        assert(self.entry_points@[n0 + k] == ep);
                        assert(self.path_of(ep.module_id as int) == mid.path_of(ep.module_id as int));
                    }
                }
            }
            i = i + 1;
        }
        proof {
            assert(entry_paths(entries@).take(entries@.len() as int) == entry_paths(entries@));
        }
        tasks
    }

    /// Folds the result of one load into the graph: its dependencies get ids
    /// (new targets are scheduled), its edges, symbols, warnings and errors
    /// are recorded, and the module is registered.
    pub fn on_task_result(&mut self, result: NormalModuleTaskResult) -> (tasks: Vec<LoadTask>)
        requires
            old(self).wf(),
            old(self).is_pending(result.module_id as int),
        ensures
            final(self).wf(),
            final(self).spawned_from(
                old(self),
                dep_paths(result.resolved_deps@),
                tasks@,
                result.module_id as int,
            ),
            final(self).modules@[result.module_id as int] matches Some(Module::Normal(m)) && {
                &&& m.path == old(self).paths@[result.module_id as int]
                &&& m.builder == result.builder
                &&& m.import_records@.len() == result.resolved_deps@.len()
                &&& forall|k: int|
                    0 <= k < result.resolved_deps@.len() ==> {
                        let rec = #[trigger] m.import_records@[k];
                        &&& rec.id == result.resolved_deps@[k].0
                        &&& final(self).path_of(rec.resolved_module as int)
                            == result.resolved_deps@[k].1.path@
                    }
            },
            final(self).symbols@[result.module_id as int] == result.symbol_map,
            forall|is_root: spec_fn(Seq<char>) -> bool|
                old(self).derived_from(is_root) ==> #[trigger] final(self).derived_from(is_root),
            forall|
                deps_of: spec_fn(Seq<char>) -> Seq<Seq<char>>,
                is_external: spec_fn(Seq<char>) -> bool,
            |
                old(self).follows(deps_of, is_external) && answers(
                    dep_paths(result.resolved_deps@),
                    old(self).path_of(result.module_id as int),
                    deps_of,
                    is_external,
                ) ==> #[trigger] final(self).follows(deps_of, is_external),
            forall|t: int| 0 <= t < tasks@.len() ==> !(#[trigger] tasks@[t]).is_entry,
            final(self).entry_points@ == old(self).entry_points@,
            final(self).runtime == old(self).runtime,
            final(self).warnings@ == old(self).warnings@ + result.warnings@,
            final(self).errors.errors@ == old(self).errors.errors@ + result.errors@,
    {
        let NormalModuleTaskResult {
            module_id,
            symbol_map,
            resolved_deps,
            errors,
            warnings,
            builder,
        } = result;
        let ghost pre = *self;
        let ghost deps = resolved_deps@;
        let mut tasks: Vec<LoadTask> = Vec::new();
        let mut records: Vec<ImportRecord> = Vec::new();
        let mut i: usize = 0;
        while i < resolved_deps.len()
            invariant
                i <= deps.len(),
                deps == resolved_deps@,
                self.wf(),
                pre.wf(),
                self.is_pending(module_id as int),
                module_id < pre.len(),
                self.spawned_from(&pre, dep_paths(deps).take(i as int), tasks@, -1),
                forall|t: int| 0 <= t < tasks@.len() ==> !(#[trigger] tasks@[t]).is_entry,
                records@.len() == i,
                forall|k: int|
                    0 <= k < i ==> {
                        let rec = #[trigger] records@[k];
                        &&& rec.id == deps[k].0
                        &&& rec.resolved_module < self.len()
                        &&& self.path_of(rec.resolved_module as int) == deps[k].1.path@
                    },
                self.entry_points@ == pre.entry_points@,
                self.runtime == pre.runtime,
                self.warnings@ == pre.warnings@,
                self.errors == pre.errors,
            decreases deps.len() - i,
        {
            let ghost mid = *self;
            let ghost mid_tasks = tasks@;
            let (dep_id, task) = self.try_spawn_new_task(&resolved_deps[i].1, false);
            let ghost step_tasks = task_seq(task);
            if let Some(t) = task {
                tasks.push(t);
            }
            records.push(ImportRecord { id: resolved_deps[i].0, resolved_module: dep_id });
            proof {
                assert(tasks@ == mid_tasks + step_tasks);
                assert(dep_paths(deps).take(i + 1) == dep_paths(deps).take(i as int) + seq![
                    (deps[i as int].1.path@, deps[i as int].1.is_external),
                ]);
                lemma_spawned_from_trans(
                    &pre,
                    &mid,
                    self,
                    dep_paths(deps).take(i as int),
                    seq![(deps[i as int].1.path@, deps[i as int].1.is_external)],
                    mid_tasks,
                    step_tasks,
                );
                assert(self.modules@[module_id as int] == mid.modules@[module_id as int]);
                assert forall|k: int| 0 <= k < i + 1 implies {
                    let rec = #[trigger] records@[k];
                    &&& rec.id == deps[k].0
                    &&& rec.resolved_module < self.len()
                    &&& self.path_of(rec.resolved_module as int) == deps[k].1.path@
                } by {
                    if k < i {
                        let rec = records@[k];
                        assert(self.paths@[rec.resolved_module as int]
                            == mid.paths@[rec.resolved_module as int]);
                    }
                }
                assert forall|t: int| 0 <= t < tasks@.len() implies !(
                #[trigger] tasks@[t]).is_entry by {
                    if t >= mid_tasks.len() {
                        assert(tasks@[t] == step_tasks[t - mid_tasks.len()]);
                    } else {
                        assert(tasks@[t] == mid_tasks[t]);
                    }
                }
            }
            i = i + 1;
        }
        let ghost looped = *self;
        let ghost recs = records@;
        let path = self.paths[module_id].clone();
        let module = NormalModule { id: module_id, path, import_records: records, builder };
        self.modules.set(module_id, Some(Module::Normal(module)));
        self.symbols.set(module_id, symbol_map);
        let mut warnings = warnings;
        let mut errors = errors;
        self.warnings.append(&mut warnings);
        self.errors.errors.append(&mut errors);
        proof {
            assert(dep_paths(deps).take(deps.len() as int) == dep_paths(deps));
            assert(edges(self.modules@[module_id as int]) == recs);
            assert forall|i: int, j: int| 0 <= i < j < self.len() implies (
            #[trigger] self.paths@[i])@ != (#[trigger] self.paths@[j])@ by {
                assert(self.paths@[i] == looped.paths@[i]);
                assert(self.paths@[j] == looped.paths@[j]);
            }
            assert forall|i: int|
                0 <= i < self.len() && (#[trigger] self.modules@[i]) is Some implies {
                    &&& self.modules@[i]->0.id_spec() == i
                    &&& self.modules@[i]->0.path_spec() == self.paths@[i]@
                } by {
                if i != module_id {
                    assert(looped.modules@[i] == self.modules@[i]);
                }
            }
            assert forall|i: int, k: int|
                0 <= i < self.len() && 0 <= k < edges(self.modules@[i]).len() implies (
                #[trigger] edges(self.modules@[i])[k]).resolved_module < self.len() by {
                if i != module_id {
                    assert(looped.modules@[i] == self.modules@[i]);
                } else {
                    assert(edges(self.modules@[i])[k] == recs[k]);
                }
            }
            if let Some(rt) = self.runtime {
                if rt != module_id {
                    assert(self.modules@[rt as int] == looped.modules@[rt as int]);
                }
            }
            assert(self.wf());
            assert forall|t: int| 0 <= t < tasks@.len() implies {
                &&& pre.len() <= (#[trigger] tasks@[t]).module_id < self.len()
                &&& self.is_pending(tasks@[t].module_id as int)
                &&& tasks@[t].path@ == self.path_of(tasks@[t].module_id as int)
            } by {
                assert(looped.is_pending(tasks@[t].module_id as int));
                assert(self.modules@[tasks@[t].module_id as int]
                    == looped.modules@[tasks@[t].module_id as int]);
            }
            assert forall|i: int|
                pre.len() <= i < self.len() && #[trigger] self.is_pending(i) implies exists|t: int|
                0 <= t < tasks@.len() && tasks@[t].module_id == i by {
                assert(self.modules@[i] == looped.modules@[i]);
                assert(looped.is_pending(i));
            }
            assert forall|i: int| pre.len() <= i < self.len() && !self.is_pending(i) implies (
            #[trigger] self.modules@[i]) matches Some(Module::External(_)) by {
                assert(self.modules@[i] == looped.modules@[i]);
            }
            assert forall|i: int| pre.len() <= i < self.len() implies #[trigger] self.kind_from(
                dep_paths(deps),
                i,
            ) by {
                assert(looped.kind_from(dep_paths(deps), i));
                assert(self.paths@[i] == looped.paths@[i]);
                assert(self.modules@[i] == looped.modules@[i]);
                assert(looped.path_of(i) == self.path_of(i));
            }
            assert forall|k: int| 0 <= k < dep_paths(deps).len() implies self.has_path(
                (#[trigger] dep_paths(deps)[k]).0,
            ) by {
                assert(looped.has_path(dep_paths(deps)[k].0));
                let m = choose|m: int|
                    0 <= m < looped.len() && #[trigger] looped.path_of(m) == dep_paths(deps)[k].0;
                assert(self.paths@[m] == looped.paths@[m]);
                assert(self.path_of(m) == dep_paths(deps)[k].0);
            }
            assert forall|i: int| 0 <= i < pre.len() implies #[trigger] self.paths@[i]
                == pre.paths@[i] by {
                assert(self.paths@[i] == looped.paths@[i]);
            }
            assert forall|i: int| pre.len() <= i < self.len() implies (
            #[trigger] self.symbols@[i]).names@.len() == 0 by {
                assert(self.symbols@[i] == looped.symbols@[i]);
            }
            assert forall|i: int| 0 <= i < pre.len() && i != module_id implies #[trigger] self.modules@[i]
                == pre.modules@[i] by {
                assert(self.modules@[i] == looped.modules@[i]);
            }
            assert forall|i: int| 0 <= i < pre.len() && i != module_id implies #[trigger] self.symbols@[i]
                == pre.symbols@[i] by {
                assert(self.symbols@[i] == looped.symbols@[i]);
            }
            assert forall|is_root: spec_fn(Seq<char>) -> bool|
                pre.derived_from(is_root) implies #[trigger] self.derived_from(is_root) by {
                assert forall|i: int| 0 <= i < self.len() implies is_root(
                    #[trigger] self.path_of(i),
                ) || self.reached_before(i) by {
                    if i < pre.len() {
                        assert(self.paths@[i] == pre.paths@[i]);
                        assert(is_root(pre.path_of(i)) || pre.reached_before(i));
                        if !is_root(pre.path_of(i)) {
                            let (j, k) = choose|j: int, k: int|
                                0 <= j < i && 0 <= k < pre.edges_of(j).len() && (
                                #[trigger] pre.edges_of(j)[k]).resolved_module == i;
                            assert(j != module_id);
                            assert(self.modules@[j] == pre.modules@[j]);
                            assert(self.edges_of(j)[k] == pre.edges_of(j)[k]);
                        }
                    } else {
                        assert(self.kind_from(dep_paths(deps), i));
                        let k = choose|k: int|
                            #[trigger] first_with(dep_paths(deps), self.path_of(i), k) && (
                            self.is_pending(i) <==> !dep_paths(deps)[k].1);
                        let rec = recs[k];
                        assert(self.edges_of(module_id as int)[k] == rec);
                        assert(self.path_of(rec.resolved_module as int) == deps[k].1.path@);
                        assert(rec.resolved_module == i);
                    }
                }
            }
            assert forall|
                deps_of: spec_fn(Seq<char>) -> Seq<Seq<char>>,
                is_external: spec_fn(Seq<char>) -> bool,
            |
                pre.follows(deps_of, is_external) && answers(
                    dep_paths(deps),
                    pre.path_of(module_id as int),
                    deps_of,
                    is_external,
                ) implies #[trigger] self.follows(deps_of, is_external) by {
                let src = dep_paths(deps);
                let p = pre.path_of(module_id as int);
                assert(self.paths@[module_id as int] == pre.paths@[module_id as int]);
                assert(pre.modules@[module_id as int] is None);
                assert forall|i: int| 0 <= i < self.len() implies {
                    &&& ((#[trigger] self.modules@[i]) matches Some(Module::External(_)))
                        == is_external(self.path_of(i))
                    &&& (self.modules@[i] matches Some(Module::Normal(_))) ==> {
                        &&& self.edges_of(i).len() == deps_of(self.path_of(i)).len()
                        &&& forall|k: int|
                            0 <= k < self.edges_of(i).len() ==> self.path_of(
                                (#[trigger] self.edges_of(i)[k]).resolved_module as int,
                            ) == deps_of(self.path_of(i))[k]
                    }
                } by {
                    if i == module_id {
                        assert forall|k: int| 0 <= k < self.edges_of(i).len() implies self.path_of(
                            (#[trigger] self.edges_of(i)[k]).resolved_module as int,
                        ) == deps_of(self.path_of(i))[k] by {
                            assert(self.edges_of(i)[k] == recs[k]);
                            assert(src[k] == (deps[k].1.path@, deps[k].1.is_external));
                        }
                    } else if i < pre.len() {
                        assert(self.modules@[i] == pre.modules@[i]);
                        assert(self.paths@[i] == pre.paths@[i]);
                        assert(self.edges_of(i) == pre.edges_of(i));
                        assert forall|k: int| 0 <= k < self.edges_of(i).len() implies self.path_of(
                            (#[trigger] self.edges_of(i)[k]).resolved_module as int,
                        ) == deps_of(self.path_of(i))[k] by {
                            let r = pre.edges_of(i)[k].resolved_module as int;
                            assert(self.paths@[r] == pre.paths@[r]);
                        }
                    } else {
                        assert(self.kind_from(src, i));
                        let k = choose|k: int|
                            #[trigger] first_with(src, self.path_of(i), k) && (self.is_pending(i)
                                <==> !src[k].1);
                        assert(src[k].1 == is_external(src[k].0));
                    }
                }
            }
        }
        tasks
    }

    /// Whether every scheduled module has been loaded.
    pub fn is_fixed_point(&self) -> (r: bool)
        requires
            self.wf(),
        ensures
            r == self.all_loaded(),
    {
        let mut i: usize = 0;
        while i < self.modules.len()
            invariant
                self.wf(),
                i <= self.len(),
                forall|j: int| 0 <= j < i ==> !#[trigger] self.is_pending(j),
            decreases self.len() - i,
        {
            if self.modules[i].is_none() {
                proof {
                    assert(self.is_pending(i as int));
                }
                return false;
            }
            i = i + 1;
        }
        true
    }

    /// Hands out the finished graph, or every error that the loads reported.
    pub fn into_output(self) -> (r: BatchedResult<ModuleLoaderOutput>)
        requires
            self.wf(),
            self.all_loaded(),
            self.runtime is Some,
        ensures
            r is Ok <==> self.errors.errors@.len() == 0,
            r matches Err(e) ==> e == self.errors,
            r matches Ok(out) ==> {
                &&& out.modules@.len() == self.len()
                &&& forall|i: int|
                    0 <= i < self.len() ==> Some(#[trigger] out.modules@[i]) == self.modules@[i]
                &&& out.entry_points == self.entry_points
                &&& out.symbols.tables == self.symbols
                &&& out.runtime.id == self.runtime->0
                &&& out.warnings == self.warnings
            },
    {
        let ghost all = self.modules@;
        proof {
            assert forall|i: int| 0 <= i < all.len() implies (#[trigger] all[i]) is Some by {
                assert(!self.is_pending(i));
            }
        }
        let ModuleLoader { paths, modules, symbols, entry_points, runtime, warnings, errors } =
            self;
        if !errors.is_empty() {
            return Err(errors);
        }
        let mut slots = modules;
        let mut out: Vec<Module> = Vec::new();
        while slots.len() > 0
            invariant
                out@.len() + slots@.len() == all.len(),
                forall|i: int| 0 <= i < out@.len() ==> Some(#[trigger] out@[i]) == all[i],
                forall|j: int| 0 <= j < slots@.len() ==> #[trigger] slots@[j] == all[out@.len() + j],
                forall|i: int| 0 <= i < all.len() ==> (#[trigger] all[i]) is Some,
            decreases slots@.len(),
        {
            let ghost before = slots@;
            let slot = slots.remove(0);
            proof {
                assert(slot == all[out@.len() as int]);
            }
            if let Some(m) = slot {
                out.push(m);
            }
            proof {
                assert forall|j: int| 0 <= j < slots@.len() implies #[trigger] slots@[j]
                    == all[out@.len() + j] by {
                    assert(slots@[j] == before[j + 1]);
                }
            }
        }
        let rt = match runtime {
            Some(id) => id,
            None => 0,
        };
        Ok(ModuleLoaderOutput {
            modules: out,
            entry_points,
            symbols: Symbols { tables: symbols },
            runtime: RuntimeModuleBrief { id: rt },
            warnings,
        })
    }
}

/// However many edges lead to a target, a well-formed loader holds its path
/// under one id only.
pub proof fn lemma_one_id_per_path(l: &ModuleLoader, i: int, j: int)
    requires
        l.wf(),
        0 <= i < l.len(),
        0 <= j < l.len(),
        l.path_of(i) == l.path_of(j),
    ensures
        i == j,
{
    if i < j {
        assert(l.paths@[i]@ != l.paths@[j]@);
    } else if j < i {
        assert(l.paths@[j]@ != l.paths@[i]@);
    }
}

/// Any module of `l1` is a module of `l2` too, when both are finished,
/// derived from the same roots, hold all of them, and follow the same
/// collaborator.
proof fn lemma_member_of_both(
    l1: &ModuleLoader,
    l2: &ModuleLoader,
    is_root: spec_fn(Seq<char>) -> bool,
    deps_of: spec_fn(Seq<char>) -> Seq<Seq<char>>,
    is_external: spec_fn(Seq<char>) -> bool,
    i: int,
)
    requires
        l1.wf(),
        l2.wf(),
        l2.all_loaded(),
        l1.derived_from(is_root),
        forall|p: Seq<char>| is_root(p) ==> l2.has_path(p),
        l1.follows(deps_of, is_external),
        l2.follows(deps_of, is_external),
        0 <= i < l1.len(),
    ensures
        l2.has_path(l1.path_of(i)),
    decreases i,
{
    let p = l1.path_of(i);
    if !is_root(p) {
        assert(l1.reached_before(i));
        let (j, k) = choose|j: int, k: int|
            0 <= j < i && 0 <= k < l1.edges_of(j).len() && (#[trigger] l1.edges_of(j)[k]).resolved_module
                == i;
        lemma_member_of_both(l1, l2, is_root, deps_of, is_external, j);
        let q = l1.path_of(j);
        let j2 = choose|j2: int| 0 <= j2 < l2.len() && #[trigger] l2.path_of(j2) == q;
        assert(l1.modules@[j] matches Some(Module::Normal(_)));
        assert(!is_external(q));
        assert(l1.edges_of(j).len() == deps_of(q).len());
        assert(!l2.is_pending(j2));
        assert(l2.modules@[j2] matches Some(Module::Normal(_)));
        assert(l2.edges_of(j2).len() == deps_of(q).len());
        let r2 = l2.edges_of(j2)[k].resolved_module as int;
        assert(l2.path_of(r2) == deps_of(q)[k]);
        assert(l1.path_of(l1.edges_of(j)[k].resolved_module as int) == deps_of(q)[k]);
        assert(l2.path_of(r2) == p);
    }
}

/// Two finished scans from the same roots, against a collaborator that
/// answers the same for the same path, hold the same modules, and a module
/// present in both has the same kind and edges to the same paths in both:
/// the order in which the loads completed makes no difference.
pub proof fn lemma_membership_determined(
    l1: &ModuleLoader,
    l2: &ModuleLoader,
    is_root: spec_fn(Seq<char>) -> bool,
    deps_of: spec_fn(Seq<char>) -> Seq<Seq<char>>,
    is_external: spec_fn(Seq<char>) -> bool,
)
    requires
        l1.wf(),
        l2.wf(),
        l1.all_loaded(),
        l2.all_loaded(),
        l1.derived_from(is_root),
        l2.derived_from(is_root),
        forall|p: Seq<char>| is_root(p) ==> l1.has_path(p) && l2.has_path(p),
        l1.follows(deps_of, is_external),
        l2.follows(deps_of, is_external),
    ensures
        forall|p: Seq<char>| l1.has_path(p) <==> l2.has_path(p),
        forall|i1: int, i2: int|
            0 <= i1 < l1.len() && 0 <= i2 < l2.len() && #[trigger] l1.path_of(i1)
                == #[trigger] l2.path_of(i2) ==> {
                &&& (l1.modules@[i1] matches Some(Module::External(_))) == (
                l2.modules@[i2] matches Some(Module::External(_)))
                &&& l1.edges_of(i1).len() == l2.edges_of(i2).len()
                &&& forall|k: int|
                    0 <= k < l1.edges_of(i1).len() ==> l1.path_of(
                        l1.edges_of(i1)[k].resolved_module as int,
                    ) == l2.path_of(l2.edges_of(i2)[k].resolved_module as int)
            },
{
    assert forall|p: Seq<char>| l1.has_path(p) <==> l2.has_path(p) by {
        if l1.has_path(p) {
            let i = choose|i: int| 0 <= i < l1.len() && #[trigger] l1.path_of(i) == p;
            lemma_member_of_both(l1, l2, is_root, deps_of, is_external, i);
        }
        if l2.has_path(p) {
            let i = choose|i: int| 0 <= i < l2.len() && #[trigger] l2.path_of(i) == p;
            lemma_member_of_both(l2, l1, is_root, deps_of, is_external, i);
        }
    }
    assert forall|i1: int, i2: int|
        0 <= i1 < l1.len() && 0 <= i2 < l2.len() && #[trigger] l1.path_of(i1)
            == #[trigger] l2.path_of(i2) implies {
            &&& (l1.modules@[i1] matches Some(Module::External(_))) == (
            l2.modules@[i2] matches Some(Module::External(_)))
            &&& l1.edges_of(i1).len() == l2.edges_of(i2).len()
            &&& forall|k: int|
                0 <= k < l1.edges_of(i1).len() ==> l1.path_of(
                    l1.edges_of(i1)[k].resolved_module as int,
                ) == l2.path_of(l2.edges_of(i2)[k].resolved_module as int)
        } by {
        assert(l1.modules@[i1] == l1.modules@[i1]);
        assert(l2.modules@[i2] == l2.modules@[i2]);
        assert(!l1.is_pending(i1));
        assert(!l2.is_pending(i2));
        let p = l1.path_of(i1);
        if !is_external(p) {
            assert(l1.modules@[i1] matches Some(Module::Normal(_)));
            assert(l2.modules@[i2] matches Some(Module::Normal(_)));
            assert(l1.edges_of(i1).len() == deps_of(p).len());
            assert(l2.edges_of(i2).len() == deps_of(p).len());
        }
        assert forall|k: int| 0 <= k < l1.edges_of(i1).len() implies l1.path_of(
            l1.edges_of(i1)[k].resolved_module as int,
        ) == l2.path_of(l2.edges_of(i2)[k].resolved_module as int) by {
            assert(l1.edges_of(i1)[k] == l1.edges_of(i1)[k]);
            assert(l2.edges_of(i2)[k] == l2.edges_of(i2)[k]);
        }
    }
}

/// A module at `path` resolved its dependencies as the collaborator says:
/// the same targets in the same order, each external exactly when the
/// collaborator calls that target external.
pub open spec fn answers(
    deps: Seq<(Seq<char>, bool)>,
    path: Seq<char>,
    deps_of: spec_fn(Seq<char>) -> Seq<Seq<char>>,
    is_external: spec_fn(Seq<char>) -> bool,
) -> bool {
    &&& deps.len() == deps_of(path).len()
    &&& forall|k: int|
        0 <= k < deps.len() ==> (#[trigger] deps[k]).0 == deps_of(path)[k] && deps[k].1
            == is_external(deps[k].0)
}

/// Source `k` is the first in `sources` with path `p`.
pub open spec fn first_with(sources: Seq<(Seq<char>, bool)>, p: Seq<char>, k: int) -> bool {
    &&& 0 <= k < sources.len()
    &&& sources[k].0 == p
    &&& forall|j: int| 0 <= j < k ==> sources[j].0 != p
}

/// The edges a module slot records: none for an external or pending module.
pub open spec fn edges(slot: Option<Module>) -> Seq<ImportRecord> {
    match slot {
        Some(Module::Normal(m)) => m.import_records@,
        _ => Seq::empty(),
    }
}

/// Module `i` of the arena has path `paths[i]`; no path occurs twice; a
/// filled slot holds the module of that id and path; every edge stays inside.
pub open spec fn arena_wf(
    paths: Seq<String>,
    modules: Seq<Option<Module>>,
    symbols: Seq<SymbolMap>,
) -> bool {
    &&& modules.len() == paths.len()
    &&& symbols.len() == paths.len()
    &&& forall|i: int, j: int|
        0 <= i < j < paths.len() ==> (#[trigger] paths[i])@ != (#[trigger] paths[j])@
    &&& forall|i: int|
        0 <= i < paths.len() && (#[trigger] modules[i]) is Some ==> {
            &&& modules[i]->0.id_spec() == i
            &&& modules[i]->0.path_spec() == paths[i]@
        }
    &&& forall|i: int, k: int|
        0 <= i < paths.len() && 0 <= k < edges(modules[i]).len() ==> (#[trigger] edges(
            modules[i],
        )[k]).resolved_module < paths.len()
}

/// The target paths of a module's resolved dependencies, in order.
pub open spec fn dep_paths(deps: Seq<(ImportRecordId, ResolvedRequestInfo)>) -> Seq<(Seq<char>, bool)> {
    deps.map_values(|d: (ImportRecordId, ResolvedRequestInfo)| (d.1.path@, d.1.is_external))
}

/// The tasks that an optional task stands for.
pub open spec fn task_seq(task: Option<LoadTask>) -> Seq<LoadTask> {
    match task {
        Some(t) => seq![t],
        None => Seq::empty(),
    }
}

/// The target paths of resolved entries, in declared order.
pub open spec fn entry_paths(entries: Seq<(Option<String>, ResolvedRequestInfo)>) -> Seq<(Seq<char>, bool)> {
    entries.map_values(|e: (Option<String>, ResolvedRequestInfo)| (e.1.path@, e.1.is_external))
}

pub(crate) fn clone_name(name: &Option<String>) -> (r: Option<String>)
    ensures
        r == *name,
{
    match name {
        Some(s) => Some(s.clone()),
        None => None,
    }
}

/// A step stays the same step when only fields outside the arena change.
pub(crate) proof fn lemma_spawned_from_frame(
    x: &ModuleLoader,
    y: &ModuleLoader,
    old: &ModuleLoader,
    sources: Seq<(Seq<char>, bool)>,
    tasks: Seq<LoadTask>,
    except: int,
)
    requires
        x.spawned_from(old, sources, tasks, except),
        y.paths@ == x.paths@,
        y.modules@ == x.modules@,
        y.symbols@ == x.symbols@,
    ensures
        y.spawned_from(old, sources, tasks, except),
{
    assert forall|i: int| old.len() <= i < y.len() implies #[trigger] y.kind_from(sources, i) by {
        assert(x.kind_from(sources, i));
        assert(x.path_of(i) == y.path_of(i));
        assert(x.is_pending(i) == y.is_pending(i));
    }
    assert forall|k: int| 0 <= k < sources.len() implies y.has_path((#[trigger] sources[k]).0) by {
        assert(x.has_path(sources[k].0));
        let m = choose|m: int| 0 <= m < x.len() && #[trigger] x.path_of(m) == sources[k].0;
        assert(y.path_of(m) == sources[k].0);
    }
    assert forall|t: int| 0 <= t < tasks.len() implies tasks[t].path@ == y.path_of(
        tasks[t].module_id as int,
    ) by {
        assert(x.path_of(tasks[t].module_id as int) == y.path_of(tasks[t].module_id as int));
    }
    assert forall|i: int| old.len() <= i < y.len() implies y.path_of(i) == x.path_of(i) by {}
}

/// Two steps that each scheduled modules for some sources make one step
/// over the sources and tasks of both.
pub(crate) proof fn lemma_spawned_from_trans(
    a: &ModuleLoader,
    b: &ModuleLoader,
    c: &ModuleLoader,
    s1: Seq<(Seq<char>, bool)>,
    s2: Seq<(Seq<char>, bool)>,
    t1: Seq<LoadTask>,
    t2: Seq<LoadTask>,
)
    requires
        b.spawned_from(a, s1, t1, -1),
        c.spawned_from(b, s2, t2, -1),
        b.wf(),
        c.wf(),
    ensures
        c.spawned_from(a, s1 + s2, t1 + t2, -1),
{
    let s = s1 + s2;
    let t = t1 + t2;
    assert forall|i: int| 0 <= i < a.len() implies #[trigger] c.paths@[i] == a.paths@[i] by {
        assert(c.paths@[i] == b.paths@[i]);
    }
    assert forall|i: int| 0 <= i < a.len() implies #[trigger] c.modules@[i] == a.modules@[i] by {
        assert(c.modules@[i] == b.modules@[i]);
    }
    assert forall|i: int| 0 <= i < a.len() implies #[trigger] c.symbols@[i] == a.symbols@[i] by {
        assert(c.symbols@[i] == b.symbols@[i]);
    }
    assert forall|i: int| a.len() <= i < c.len() implies #[trigger] c.kind_from(s, i) by {
        if i < b.len() {
            assert(c.paths@[i] == b.paths@[i]);
            assert(c.modules@[i] == b.modules@[i]);
            assert(b.kind_from(s1, i));
            let k = choose|k: int| #[trigger] first_with(s1, b.path_of(i), k) && (b.is_pending(i)
                <==> !s1[k].1);
            assert(s[k] == s1[k]);
            assert(forall|j: int| 0 <= j < k ==> s[j] == s1[j]);
            assert(first_with(s, c.path_of(i), k));
        } else {
            assert(c.kind_from(s2, i));
            let k = choose|k: int| #[trigger] first_with(s2, c.path_of(i), k) && (c.is_pending(i)
                <==> !s2[k].1);
            assert forall|j: int| 0 <= j < s1.len() implies s1[j].0 != c.path_of(i) by {
                assert(b.has_path(s1[j].0));
                let m = choose|m: int| 0 <= m < b.len() && #[trigger] b.path_of(m) == s1[j].0;
                assert(c.paths@[m] == b.paths@[m]);
                assert(c.paths@[m]@ != c.paths@[i]@);
            }
            assert(s[s1.len() + k] == s2[k]);
            assert(forall|j: int| s1.len() <= j < s1.len() + k ==> s[j] == s2[j - s1.len()]);
            assert(forall|j: int| 0 <= j < s1.len() ==> s[j] == s1[j]);
            assert(first_with(s, c.path_of(i), s1.len() + k));
        }
    }
    assert forall|k: int| 0 <= k < s.len() implies c.has_path((#[trigger] s[k]).0) by {
        if k < s1.len() {
            assert(s[k] == s1[k]);
            assert(b.has_path(s1[k].0));
            let m = choose|m: int| 0 <= m < b.len() && #[trigger] b.path_of(m) == s1[k].0;
            assert(c.paths@[m] == b.paths@[m]);
            assert(c.path_of(m) == s1[k].0);
        } else {
            assert(s[k] == s2[k - s1.len()]);
        }
    }
    assert forall|x: int, y: int| 0 <= x < y < t.len() implies (#[trigger] t[x]).module_id != (
    #[trigger] t[y]).module_id by {
        if y < t1.len() {
            assert(t[x] == t1[x] && t[y] == t1[y]);
        } else if x >= t1.len() {
            assert(t[x] == t2[x - t1.len()] && t[y] == t2[y - t1.len()]);
        } else {
            assert(t[x] == t1[x] && t[y] == t2[y - t1.len()]);
        }
    }
    assert forall|i: int| a.len() <= i < c.len() implies (#[trigger] c.symbols@[i]).names@.len()
        == 0 by {
        if i < b.len() {
            assert(c.symbols@[i] == b.symbols@[i]);
        }
    }
    assert forall|j: int| 0 <= j < t.len() implies {
        &&& a.len() <= (#[trigger] t[j]).module_id < c.len()
        &&& c.is_pending(t[j].module_id as int)
        &&& t[j].path@ == c.path_of(t[j].module_id as int)
    } by {
        if j < t1.len() {
            assert(t[j] == t1[j]);
            let id = t1[j].module_id as int;
            assert(c.modules@[id] == b.modules@[id]);
            assert(c.paths@[id] == b.paths@[id]);
        } else {
            assert(t[j] == t2[j - t1.len()]);
        }
    }
    assert forall|i: int| a.len() <= i < c.len() && #[trigger] c.is_pending(i) implies exists|
        j: int,
    | 0 <= j < t.len() && t[j].module_id == i by {
        if i < b.len() {
            assert(c.modules@[i] == b.modules@[i]);
            assert(b.is_pending(i));
            let j = choose|j: int| 0 <= j < t1.len() && t1[j].module_id == i;
            assert(t[j] == t1[j]);
        } else {
            let j = choose|j: int| 0 <= j < t2.len() && t2[j].module_id == i;
            assert(t[t1.len() + j] == t2[j]);
        }
    }
    assert forall|i: int| a.len() <= i < c.len() && !c.is_pending(i) implies (
    #[trigger] c.modules@[i]) matches Some(Module::External(_)) by {
        if i < b.len() {
            assert(c.modules@[i] == b.modules@[i]);
        }
    }
}

} // verus!
