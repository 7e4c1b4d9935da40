use vstd::prelude::*;
use crate::error::{BatchedErrors, BatchedResult, BuildError};
use crate::module_loader::{
    clone_name, entry_paths, first_with, lemma_spawned_from_trans, runtime_path, task_seq, LoadTask,
    ModuleLoader,
};
use crate::types::{EntryPoint, InputItem, Module, ModuleVec, ResolvedRequestInfo, RuntimeModuleBrief, Symbols};

verus! {

/// Drives one scan: the user's entries, then the module graph behind them.
pub struct ScanStage {
    pub input: Vec<InputItem>,
}

/// The complete module graph of one scan, ready for linking.
pub struct ScanStageOutput {
    pub modules: ModuleVec,
    pub entry_points: Vec<EntryPoint>,
    pub symbols: Symbols,
    pub runtime: RuntimeModuleBrief,
    pub warnings: Vec<BuildError>,
}

/// What is wrong with one declared entry, given how it resolved.
pub open spec fn entry_error(
    item: InputItem,
    outcome: Result<ResolvedRequestInfo, BuildError>,
) -> Option<BuildError> {
    match outcome {
        Err(e) => Some(e),
        Ok(info) => if info.is_external {
            Some(BuildError::EntryCannotBeExternal { specifier: item.import })
        } else {
            None
        },
    }
}

/// The values that an optional value stands for.
pub open spec fn opt_seq<T>(o: Option<T>) -> Seq<T> {
    match o {
        Some(v) => seq![v],
        None => Seq::empty(),
    }
}

/// The errors of the first `n` entries, in declared order.
pub open spec fn entry_errors_upto(
    items: Seq<InputItem>,
    outs: Seq<Result<ResolvedRequestInfo, BuildError>>,
    n: nat,
) -> Seq<BuildError>
    decreases n,
{
    if n == 0 {
        Seq::empty()
    } else {
        entry_errors_upto(items, outs, (n - 1) as nat) + opt_seq(
            entry_error(items[n - 1], outs[n - 1]),
        )
    }
}

/// The errors of all declared entries, in declared order.
pub open spec fn entry_errors(
    items: Seq<InputItem>,
    outs: Seq<Result<ResolvedRequestInfo, BuildError>>,
) -> Seq<BuildError> {
    entry_errors_upto(items, outs, outs.len())
}

/// An entry may start the graph: it resolved, and not to an external target.
pub open spec fn entry_ok(outcome: Result<ResolvedRequestInfo, BuildError>) -> bool {
    outcome matches Ok(info) && !info.is_external
}

/// The first `n` entries all resolved well exactly when none of them left an error.
pub proof fn lemma_entry_errors_empty(
    items: Seq<InputItem>,
    outs: Seq<Result<ResolvedRequestInfo, BuildError>>,
    n: nat,
)
    requires
        n <= outs.len(),
    ensures
        entry_errors_upto(items, outs, n).len() == 0 <==> forall|k: int|
            0 <= k < n ==> entry_ok(#[trigger] outs[k]),
    decreases n,
{
    if n > 0 {
        lemma_entry_errors_empty(items, outs, (n - 1) as nat);
        if entry_errors_upto(items, outs, n).len() == 0 {
            assert forall|k: int| 0 <= k < n implies entry_ok(#[trigger] outs[k]) by {
                if k < n - 1 {
                } else {
                    assert(entry_error(items[k], outs[k]) is None);
                }
            }
        } else {
            if entry_errors_upto(items, outs, (n - 1) as nat).len() == 0 {
                assert(!entry_ok(outs[n - 1]));
            }
        }
    }
}

/// A declared entry that resolves to an external target leaves an error that
/// names its specifier among the batch.
pub proof fn lemma_external_entry_rejected(
    items: Seq<InputItem>,
    outs: Seq<Result<ResolvedRequestInfo, BuildError>>,
    k: int,
    n: nat,
)
    requires
        0 <= k < n <= outs.len(),
        outs[k] matches Ok(info) && info.is_external,
    ensures
        entry_errors_upto(items, outs, n).contains(
            BuildError::EntryCannotBeExternal { specifier: items[k].import },
        ),
    decreases n,
{
    let e = BuildError::EntryCannotBeExternal { specifier: items[k].import };
    let prev = entry_errors_upto(items, outs, (n - 1) as nat);
    let cur = entry_errors_upto(items, outs, n);
    if k == n - 1 {
        assert(cur[prev.len() as int] == e);
    } else {
        lemma_external_entry_rejected(items, outs, k, (n - 1) as nat);
        let j = choose|j: int| 0 <= j < prev.len() && prev[j] == e;
        assert(cur[j] == prev[j]);
    }
}

/// The sources a scan seeds its loader with: the runtime module, then the
/// resolved entries.
pub open spec fn srcs_of(entries: Seq<(Option<String>, ResolvedRequestInfo)>) -> Seq<(
    Seq<char>,
    bool,
)> {
    seq![(runtime_path(), false)] + entry_paths(entries)
}

/// Some declared entry resolved to `path`.
pub open spec fn resolves_to(resolved: Seq<Result<ResolvedRequestInfo, BuildError>>, path: Seq<char>) -> bool {
    exists|k: int|
        0 <= k < resolved.len() && (#[trigger] resolved[k] matches Ok(info) && info.path@ == path)
}

/// A collaborator's word on which paths are external agrees with how the
/// entries resolved, and leaves the runtime module internal.
pub open spec fn agrees(
    resolved: Seq<Result<ResolvedRequestInfo, BuildError>>,
    is_external: spec_fn(Seq<char>) -> bool,
) -> bool {
    &&& !is_external(runtime_path())
    &&& forall|k: int|
        0 <= k < resolved.len() ==> ((#[trigger] resolved[k]) matches Ok(info) ==> is_external(
            info.path@,
        ) == info.is_external)
}

/// The roots of a scan: the runtime module and every resolved entry.
pub open spec fn scan_roots(resolved: Seq<Result<ResolvedRequestInfo, BuildError>>) -> spec_fn(
    Seq<char>,
) -> bool {
    |p: Seq<char>| p == runtime_path() || resolves_to(resolved, p)
}

/// Each module stands at its own id and under a path no other module has,
/// and the synthetic runtime module is among them.
pub open spec fn output_wf(out: ScanStageOutput) -> bool {
    &&& forall|i: int|
        0 <= i < out.modules@.len() ==> (#[trigger] out.modules@[i]).id_spec() == i
    &&& forall|i: int, j: int|
        0 <= i < j < out.modules@.len() ==> (#[trigger] out.modules@[i]).path_spec() != (
        #[trigger] out.modules@[j]).path_spec()
    &&& out.runtime.id < out.modules@.len()
    &&& out.modules@[out.runtime.id as int] is Normal
    &&& out.modules@[out.runtime.id as int].path_spec() == runtime_path()
}

impl ScanStage {
    pub fn new(input: Vec<InputItem>) -> (r: ScanStage)
        ensures
            r.input == input,
    {
        ScanStage { input }
    }

    /// Pairs each declared entry with its resolution, in declared order, or
    /// reports every entry that failed to resolve or resolved to an external
    /// target.
    pub fn resolve_user_defined_entries(
        &self,
        resolved: Vec<Result<ResolvedRequestInfo, BuildError>>,
    ) -> (r: BatchedResult<Vec<(Option<String>, ResolvedRequestInfo)>>)
        requires
            resolved@.len() == self.input@.len(),
        ensures
            r is Ok <==> forall|k: int| 0 <= k < resolved@.len() ==> entry_ok(#[trigger] resolved@[k]),
            r matches Err(b) ==> b.errors@ == entry_errors(self.input@, resolved@) && b.errors@.len() > 0,
            r matches Ok(v) ==> v@.len() == resolved@.len() && forall|k: int|
                0 <= k < v@.len() ==> (#[trigger] v@[k]).0 == self.input@[k].name && resolved@[k]
                    == Ok::<ResolvedRequestInfo, BuildError>(v@[k].1),
    {
        let ghost items = self.input@;
        let ghost outs = resolved@;
        let mut errors = BatchedErrors::new();
        let mut collected: Vec<(Option<String>, ResolvedRequestInfo)> = Vec::new();
        let mut rest = resolved;
        let mut i: usize = 0;
        while i < self.input.len()
            invariant
                items == self.input@,
                outs.len() == items.len(),
                i <= items.len(),
                rest@ == outs.skip(i as int),
                errors.errors@ == entry_errors_upto(items, outs, i as nat),
                errors.errors@.len() == 0 ==> collected@.len() == i,
                errors.errors@.len() == 0 ==> forall|k: int|
                    0 <= k < i ==> (#[trigger] collected@[k]).0 == items[k].name && outs[k]
                        == Ok::<ResolvedRequestInfo, BuildError>(collected@[k].1),
            decreases items.len() - i,
        {
            let outcome = rest.remove(0);
            proof {
                assert(outcome == outs[i as int]);
            }
            let item = &self.input[i];
            let checked = match outcome {
                Ok(info) => {
                    if info.is_external {
                        Err(BuildError::entry_cannot_be_external(&item.import))
                    } else {
                        Ok((clone_name(&item.name), info))
                    }
                },
                Err(e) => Err(e),
            };
            let ghost before = errors.errors@;
            if let Some(v) = errors.take_err_from(checked) {
                collected.push(v);
            }
            proof {
                assert(rest@ =~= outs.skip(i + 1));
                assert(errors.errors@ == before + opt_seq(entry_error(items[i as int], outs[i as int])));
            }
            i = i + 1;
        }
        proof {
            lemma_entry_errors_empty(items, outs, outs.len());
        }
        if errors.is_empty() {
            Ok(collected)
        } else {
            Err(errors)
        }
    }

    /// A loader seeded for this scan: the runtime module is module 0, the
    /// entries follow in declared order, every other module is external, and
    /// `tasks` are exactly the loads still owed.
    pub open spec fn seeded(
        &self,
        resolved: Seq<Result<ResolvedRequestInfo, BuildError>>,
        loader: ModuleLoader,
        tasks: Seq<LoadTask>,
    ) -> bool {
        &&& loader.wf()
        &&& loader.runtime == Some(0usize)
        &&& loader.len() >= 1
        &&& loader.path_of(0) == runtime_path()
        &&& forall|i: int| 1 <= i < loader.len() ==> resolves_to(resolved, #[trigger] loader.path_of(i))
        &&& loader.entry_points@.len() == self.input@.len()
        &&& forall|k: int|
            0 <= k < self.input@.len() ==> {
                let ep = #[trigger] loader.entry_points@[k];
                &&& ep.name == self.input@[k].name
                &&& (resolved[k] matches Ok(info) && loader.path_of(ep.module_id as int) == info.path@)
            }
        &&& forall|t: int|
            0 <= t < tasks.len() ==> {
                &&& loader.is_pending((#[trigger] tasks[t]).module_id as int)
                &&& tasks[t].path@ == loader.path_of(tasks[t].module_id as int)
            }
        &&& forall|i: int|
            0 <= i < loader.len() && #[trigger] loader.is_pending(i) ==> exists|t: int|
                0 <= t < tasks.len() && tasks[t].module_id == i
        &&& forall|i: int|
            0 <= i < loader.len() && !loader.is_pending(i) ==> ((
            #[trigger] loader.modules@[i]) matches Some(Module::External(_)))
        &&& forall|i: int| 0 <= i < loader.len() ==> #[trigger] loader.is_pending(i)
        &&& forall|
            deps_of: spec_fn(Seq<char>) -> Seq<Seq<char>>,
            is_external: spec_fn(Seq<char>) -> bool,
        |
            agrees(resolved, is_external) ==> #[trigger] loader.follows(deps_of, is_external)
        &&& loader.derived_from(scan_roots(resolved))
        &&& forall|p: Seq<char>| #[trigger] scan_roots(resolved)(p) ==> loader.has_path(p)
        &&& loader.warnings@.len() == 0
        &&& loader.errors.errors@.len() == 0
    }

    /// Starts a scan from how each declared entry resolved: either every
    /// entry error at once, or a loader holding the runtime module and the
    /// entries, with the loads that are owed.
    pub fn scan(&self, resolved: Vec<Result<ResolvedRequestInfo, BuildError>>) -> (r: BatchedResult<
        (ModuleLoader, Vec<LoadTask>),
    >)
        requires
            self.input@.len() > 0,
            resolved@.len() == self.input@.len(),
        ensures
            r is Ok <==> forall|k: int| 0 <= k < resolved@.len() ==> entry_ok(#[trigger] resolved@[k]),
            r matches Err(b) ==> b.errors@ == entry_errors(self.input@, resolved@),
            forall|k: int|
                0 <= k < resolved@.len() && (#[trigger] resolved@[k] matches Ok(info)
                    && info.is_external) ==> (r matches Err(b) && b.errors@.contains(
                    BuildError::EntryCannotBeExternal { specifier: self.input@[k].import },
                )),
            r matches Ok(p) ==> self.seeded(resolved@, p.0, p.1@),
    {
        let ghost outs = resolved@;
        let mut module_loader = ModuleLoader::new();
        let ghost empty = module_loader;
        let runtime_task = module_loader.try_spawn_runtime_module_task();
        let ghost seeded = module_loader;
        proof {
            assert forall|k: int|
                0 <= k < outs.len() && (#[trigger] outs[k] matches Ok(info) && info.is_external)
                implies entry_errors(self.input@, outs).contains(
                BuildError::EntryCannotBeExternal { specifier: self.input@[k].import },
            ) by {
                lemma_external_entry_rejected(self.input@, outs, k, outs.len());
            }
        }
        let user_entries = match self.resolve_user_defined_entries(resolved) {
            Ok(v) => v,
            Err(e) => {
                return Err(e);
            },
        };
        let entry_tasks = module_loader.add_entries(&user_entries);
        let mut tasks: Vec<LoadTask> = Vec::new();
        if let Some(t) = runtime_task {
            tasks.push(t);
        }
        let mut entry_tasks = entry_tasks;
        let ghost first = tasks@;
        let ghost rest = entry_tasks@;
        tasks.append(&mut entry_tasks);
        proof {
            lemma_spawned_from_trans(
                &empty,
                &seeded,
                &module_loader,
                seq![(runtime_path(), false)],
                entry_paths(user_entries@),
                first,
                rest,
            );
            let srcs = seq![(runtime_path(), false)] + entry_paths(user_entries@);
            assert(srcs == srcs_of(user_entries@));
            assert(first == task_seq(runtime_task));
            assert(tasks@ == first + rest);
            assert(module_loader.paths@[0] == seeded.paths@[0]);
            assert forall|i: int| 1 <= i < module_loader.len() implies resolves_to(
                outs,
                #[trigger] module_loader.path_of(i),
            ) by {
                assert(module_loader.kind_from(srcs, i));
                let j = choose|j: int|
                    #[trigger] first_with(srcs, module_loader.path_of(i), j) && (
                    module_loader.is_pending(i) <==> !srcs[j].1);
                if j == 0 {
                    assert(module_loader.path_of(i) == module_loader.path_of(0));
                } else {
                    assert(srcs[j] == entry_paths(user_entries@)[j - 1]);
                    assert(outs[j - 1] == Ok::<ResolvedRequestInfo, BuildError>(
                        user_entries@[j - 1].1,
                    ));
                    assert(outs[j - 1] matches Ok(info) && info.path@ == module_loader.path_of(i));
                }
            }
            assert forall|k: int| 0 <= k < self.input@.len() implies {
                let ep = #[trigger] module_loader.entry_points@[k];
                &&& ep.name == self.input@[k].name
                &&& (outs[k] matches Ok(info) && module_loader.path_of(ep.module_id as int)
                    == info.path@)
            } by {
                assert(outs[k] == Ok::<ResolvedRequestInfo, BuildError>(user_entries@[k].1));
                assert(module_loader.entry_points@[k] == module_loader.entry_points@[
                    seeded.entry_points@.len() + k]);
            }
        }
        proof {
            assert forall|i: int| 0 <= i < module_loader.len() implies #[trigger] module_loader.is_pending(i) by {
                assert(module_loader.kind_from(srcs_of(user_entries@), i));
                let srcs = srcs_of(user_entries@);
                let j = choose|j: int|
                    #[trigger] first_with(srcs, module_loader.path_of(i), j) && (
                    module_loader.is_pending(i) <==> !srcs[j].1);
                if j > 0 {
                    assert(srcs[j] == entry_paths(user_entries@)[j - 1]);
                    assert(outs[j - 1] == Ok::<ResolvedRequestInfo, BuildError>(
                        user_entries@[j - 1].1,
                    ));
                    assert(entry_ok(outs[j - 1]));
                }
            }
            assert forall|
                deps_of: spec_fn(Seq<char>) -> Seq<Seq<char>>,
                is_external: spec_fn(Seq<char>) -> bool,
            | agrees(outs, is_external) implies #[trigger] module_loader.follows(deps_of, is_external) by {
                assert forall|i: int| 0 <= i < module_loader.len() implies !is_external(
                    module_loader.path_of(i),
                ) by {
                    assert(module_loader.is_pending(i));
                    if i > 0 {
                        assert(resolves_to(outs, module_loader.path_of(i)));
                        let k = choose|k: int|
                            0 <= k < outs.len() && (#[trigger] outs[k] matches Ok(info) && info.path@
                                == module_loader.path_of(i));
                        assert(entry_ok(outs[k]));
                    }
                }
                assert forall|i: int| 0 <= i < module_loader.len() implies (
                #[trigger] module_loader.modules@[i]) is None by {
                    assert(module_loader.is_pending(i));
                }
            }
            let roots = scan_roots(outs);
            assert forall|i: int| 0 <= i < module_loader.len() implies roots(
                #[trigger] module_loader.path_of(i),
            ) || module_loader.reached_before(i) by {
                if i == 0 {
                    assert(module_loader.path_of(0) == runtime_path());
                }
            }
            assert forall|p: Seq<char>| #[trigger] roots(p) implies module_loader.has_path(p) by {
                if p == runtime_path() {
                    assert(module_loader.path_of(0) == p);
                } else {
                    let k = choose|k: int|
                        0 <= k < outs.len() && (#[trigger] outs[k] matches Ok(info) && info.path@
                            == p);
                    let ep = module_loader.entry_points@[k];
                    assert(module_loader.path_of(ep.module_id as int) == p);
                }
            }
        }
        Ok((module_loader, tasks))
    }

    /// Packages the graph once every scheduled module is loaded, or reports
    /// every load error.
    pub fn finish(loader: ModuleLoader) -> (r: BatchedResult<ScanStageOutput>)
        requires
            loader.wf(),
            loader.all_loaded(),
            loader.runtime is Some,
        ensures
            r is Ok <==> loader.errors.errors@.len() == 0,
            r matches Err(e) ==> e == loader.errors,
            r matches Ok(out) ==> {
                &&& out.modules@.len() == loader.len()
                &&& forall|i: int|
                    0 <= i < loader.len() ==> Some(#[trigger] out.modules@[i]) == loader.modules@[i]
                &&& out.entry_points == loader.entry_points
                &&& out.symbols.tables == loader.symbols
                &&& out.warnings == loader.warnings
                &&& out.runtime.id == loader.runtime->0
                &&& output_wf(out)
            },
    {
        let ghost pre = loader;
        match loader.into_output() {
            Ok(o) => {
                let out = ScanStageOutput {
                    modules: o.modules,
                    entry_points: o.entry_points,
                    symbols: o.symbols,
                    runtime: o.runtime,
                    warnings: o.warnings,
                };
                proof {
                    assert forall|i: int, j: int| 0 <= i < j < out.modules@.len() implies (
                    #[trigger] out.modules@[i]).path_spec() != (#[trigger] out.modules@[j]).path_spec() by {
                        assert(Some(out.modules@[i]) == pre.modules@[i]);
                        assert(Some(out.modules@[j]) == pre.modules@[j]);
                        assert(pre.paths@[i]@ != pre.paths@[j]@);
                    }
                    assert forall|i: int| 0 <= i < out.modules@.len() implies (
                    #[trigger] out.modules@[i]).id_spec() == i by {
                        assert(Some(out.modules@[i]) == pre.modules@[i]);
                    }
                    let rt = out.runtime.id as int;
                    assert(Some(out.modules@[rt]) == pre.modules@[rt]);
                    assert(!pre.is_pending(rt));
                }
                Ok(out)
            },
            Err(e) => Err(e),
        }
    }
}


} // verus!
