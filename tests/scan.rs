use std::collections::BTreeMap;
use std::collections::BTreeSet;

use rolldown::error::{BatchedErrors, BuildError};
use rolldown::module_loader::{LoadTask, ModuleLoader, RUNTIME_MODULE_PATH};
use rolldown::scan_stage::{ScanStage, ScanStageOutput};
use rolldown::task_result::NormalModuleTaskResult;
use rolldown::types::{
    InputItem, Module, NormalModuleBuilder, ResolvedRequestInfo, SymbolMap,
};

/// What the fake collaborator answers for one path.
#[derive(Clone, Default)]
struct Page {
    deps: Vec<(String, bool)>,
    symbols: Vec<String>,
    errors: Vec<String>,
    warnings: Vec<String>,
}

fn page(deps: &[&str]) -> Page {
    Page {
        deps: deps.iter().map(|d| (d.to_string(), false)).collect(),
        ..Page::default()
    }
}

fn host(pages: Vec<(&str, Page)>) -> BTreeMap<String, Page> {
    let mut h: BTreeMap<String, Page> = pages.into_iter().map(|(p, g)| (p.to_string(), g)).collect();
    h.entry(RUNTIME_MODULE_PATH.to_string()).or_insert_with(Page::default);
    h
}

fn load(task: &LoadTask, host: &BTreeMap<String, Page>) -> NormalModuleTaskResult {
    let pg = host.get(&task.path).cloned().unwrap_or_else(|| Page {
        errors: vec![format!("cannot load {}", task.path)],
        ..Page::default()
    });
    NormalModuleTaskResult {
        module_id: task.module_id,
        symbol_map: SymbolMap::new(pg.symbols.clone()),
        resolved_deps: pg
            .deps
            .iter()
            .enumerate()
            .map(|(i, (p, ext))| (i, ResolvedRequestInfo::new(p.clone(), *ext)))
            .collect(),
        errors: pg
            .errors
            .iter()
            .map(|e| BuildError::LoadFailed { path: task.path.clone(), reason: e.clone() })
            .collect(),
        warnings: pg.warnings.iter().map(|w| BuildError::Message { text: w.clone() }).collect(),
        builder: NormalModuleBuilder { source: format!("// {}", task.path) },
    }
}

fn entries(specs: &[&str]) -> ScanStage {
    ScanStage::new(specs.iter().map(|s| InputItem::new(None, s.to_string())).collect())
}

fn resolve_plain(specs: &[&str]) -> Vec<Result<ResolvedRequestInfo, BuildError>> {
    specs.iter().map(|s| Ok(ResolvedRequestInfo::new(s.to_string(), false))).collect()
}

/// Runs the scan to its fixed point; `lifo` picks the newest task first.
fn run(
    specs: &[&str],
    host: &BTreeMap<String, Page>,
    lifo: bool,
) -> Result<ScanStageOutput, BatchedErrors> {
    let stage = entries(specs);
    let (mut loader, tasks): (ModuleLoader, Vec<LoadTask>) = stage.scan(resolve_plain(specs))?;
    let mut queue: Vec<LoadTask> = tasks;
    while !queue.is_empty() {
        let task = if lifo { queue.pop().unwrap() } else { queue.remove(0) };
        let result = load(&task, host);
        queue.extend(loader.on_task_result(result));
    }
    assert!(loader.is_fixed_point());
    ScanStage::finish(loader)
}

fn path_of(m: &Module) -> String {
    m.path().clone()
}

fn edges_of(out: &ScanStageOutput, path: &str) -> Vec<String> {
    let m = out.modules.iter().find(|m| path_of(m) == path).expect("module present");
    match m {
        Module::Normal(n) => n
            .import_records
            .iter()
            .map(|r| path_of(&out.modules[r.resolved_module]))
            .collect(),
        Module::External(_) => Vec::new(),
    }
}

fn count_path(out: &ScanStageOutput, path: &str) -> usize {
    out.modules.iter().filter(|m| path_of(m) == path).count()
}

#[test]
fn cycle_gives_two_user_modules_and_runtime() {
    let h = host(vec![("a.js", page(&["b.js"])), ("b.js", page(&["a.js"]))]);
    let out = run(&["a.js"], &h, false).ok().expect("scan succeeds");
    assert_eq!(out.modules.len(), 3);
    assert_eq!(count_path(&out, "a.js"), 1);
    assert_eq!(count_path(&out, "b.js"), 1);
    assert_eq!(count_path(&out, RUNTIME_MODULE_PATH), 1);
    assert_eq!(edges_of(&out, "a.js"), vec!["b.js".to_string()]);
    assert_eq!(edges_of(&out, "b.js"), vec!["a.js".to_string()]);
    assert!(out.warnings.is_empty());
}

#[test]
fn module_reached_by_many_edges_is_loaded_once() {
    let h = host(vec![
        ("a.js", page(&["b.js", "c.js", "d.js"])),
        ("b.js", page(&["d.js"])),
        ("c.js", page(&["d.js", "d.js"])),
        ("d.js", page(&[])),
    ]);
    let stage = entries(&["a.js"]);
    let (mut loader, tasks) = stage.scan(resolve_plain(&["a.js"])).ok().expect("entries resolve");
    let mut queue = tasks;
    let mut loaded: Vec<String> = Vec::new();
    while let Some(task) = queue.pop() {
        loaded.push(task.path.clone());
        let result = load(&task, &h);
        queue.extend(loader.on_task_result(result));
    }
    assert_eq!(loaded.iter().filter(|p| p.as_str() == "d.js").count(), 1);
    let out = ScanStage::finish(loader).ok().expect("scan succeeds");
    assert_eq!(count_path(&out, "d.js"), 1);
    assert_eq!(out.modules.len(), 5);
    assert_eq!(edges_of(&out, "c.js"), vec!["d.js".to_string(), "d.js".to_string()]);
}

#[test]
fn external_entry_is_rejected_with_its_specifier() {
    let stage = ScanStage::new(vec![
        InputItem::new(Some("main".to_string()), "./main.js".to_string()),
        InputItem::new(None, "node:fs".to_string()),
    ]);
    let resolved = vec![
        Ok(ResolvedRequestInfo::new("/src/main.js".to_string(), false)),
        Ok(ResolvedRequestInfo::new("node:fs".to_string(), true)),
    ];
    let err = stage.scan(resolved).err().expect("scan fails");
    assert_eq!(err.len(), 1);
    assert!(err.errors[0].is_entry_cannot_be_external(&"node:fs".to_string()));
}

#[test]
fn entry_errors_are_all_reported_in_order() {
    let stage = entries(&["x.js", "y.js", "z.js"]);
    let resolved = vec![
        Err(BuildError::UnresolvedEntry { specifier: "x.js".to_string() }),
        Ok(ResolvedRequestInfo::new("/y.js".to_string(), false)),
        Ok(ResolvedRequestInfo::new("z.js".to_string(), true)),
    ];
    let err = stage.resolve_user_defined_entries(resolved).err().expect("fails");
    assert_eq!(err.len(), 2);
    assert!(matches!(&err.errors[0], BuildError::UnresolvedEntry { specifier } if specifier == "x.js"));
    assert!(err.errors[1].is_entry_cannot_be_external(&"z.js".to_string()));
}

#[test]
fn entries_keep_declared_order_and_names() {
    let stage = ScanStage::new(vec![
        InputItem::new(Some("first".to_string()), "b.js".to_string()),
        InputItem::new(Some("second".to_string()), "a.js".to_string()),
    ]);
    let resolved = resolve_plain(&["b.js", "a.js"]);
    let v = stage.resolve_user_defined_entries(resolved).ok().expect("resolves");
    assert_eq!(v.len(), 2);
    assert_eq!(v[0].0.as_deref(), Some("first"));
    assert_eq!(v[0].1.path, "b.js");
    assert_eq!(v[1].0.as_deref(), Some("second"));
    let (loader, tasks) = stage.scan(resolve_plain(&["b.js", "a.js"])).ok().expect("scan");
    assert_eq!(tasks.len(), 3);
    assert_eq!(tasks[0].path, RUNTIME_MODULE_PATH);
    assert!(!tasks[0].is_entry);
    assert!(tasks[1].is_entry && tasks[2].is_entry);
    assert_eq!(loader.paths[loader.entry_points[0].module_id], "b.js");
    assert_eq!(loader.paths[loader.entry_points[1].module_id], "a.js");
    assert_eq!(loader.entry_points[1].name.as_deref(), Some("second"));
}

#[test]
fn load_errors_of_several_modules_are_all_kept() {
    let mut bad_b = page(&[]);
    bad_b.errors = vec!["syntax error".to_string()];
    let h = host(vec![("a.js", page(&["b.js", "missing.js"])), ("b.js", bad_b)]);
    let err = run(&["a.js"], &h, false).err().expect("scan fails");
    assert_eq!(err.len(), 2);
    let paths: BTreeSet<String> = err
        .errors
        .iter()
        .map(|e| match e {
            BuildError::LoadFailed { path, .. } => path.clone(),
            _ => String::new(),
        })
        .collect();
    assert!(paths.contains("b.js"));
    assert!(paths.contains("missing.js"));
}

#[test]
fn warnings_pass_through_in_registration_order() {
    let mut a = page(&["b.js"]);
    a.warnings = vec!["w-a".to_string()];
    let mut b = page(&[]);
    b.warnings = vec!["w-b1".to_string(), "w-b2".to_string()];
    let h = host(vec![("a.js", a), ("b.js", b)]);
    let out = run(&["a.js"], &h, false).ok().expect("scan succeeds");
    let texts: Vec<String> = out
        .warnings
        .iter()
        .map(|w| match w {
            BuildError::Message { text } => text.clone(),
            _ => String::new(),
        })
        .collect();
    assert_eq!(texts, vec!["w-a", "w-b1", "w-b2"]);
}

#[test]
fn membership_does_not_depend_on_task_order() {
    let h = host(vec![
        ("a.js", page(&["b.js", "c.js"])),
        ("b.js", page(&["c.js", "e.js"])),
        ("c.js", page(&["a.js", "d.js"])),
        ("d.js", page(&[])),
        ("e.js", page(&["d.js"])),
    ]);
    let fifo = run(&["a.js"], &h, false).ok().expect("fifo");
    let lifo = run(&["a.js"], &h, true).ok().expect("lifo");
    let members = |o: &ScanStageOutput| -> BTreeSet<String> { o.modules.iter().map(path_of).collect() };
    assert_eq!(members(&fifo), members(&lifo));
    let edge_set = |o: &ScanStageOutput| -> BTreeSet<(String, String)> {
        let mut s = BTreeSet::new();
        for m in o.modules.iter() {
            for t in edges_of(o, &path_of(m)) {
                s.insert((path_of(m), t));
            }
        }
        s
    };
    assert_eq!(edge_set(&fifo), edge_set(&lifo));
    assert_eq!(fifo.modules.len(), 6);
}

#[test]
fn runtime_module_is_present_without_references() {
    let h = host(vec![("a.js", page(&[]))]);
    let out = run(&["a.js"], &h, false).ok().expect("scan succeeds");
    assert_eq!(out.runtime.id, 0);
    assert_eq!(path_of(&out.modules[out.runtime.id]), RUNTIME_MODULE_PATH);
    assert!(matches!(out.modules[out.runtime.id], Module::Normal(_)));
    assert_eq!(out.modules.len(), 2);
}

#[test]
fn external_dependency_is_a_leaf() {
    let mut a = page(&["b.js"]);
    a.deps.push(("node:path".to_string(), true));
    let h = host(vec![("a.js", a), ("b.js", page(&["node:path"]))]);
    let out = run(&["a.js"], &h, false).ok().expect("scan succeeds");
    assert_eq!(count_path(&out, "node:path"), 1);
    let ext = out.modules.iter().find(|m| path_of(m) == "node:path").unwrap();
    assert!(matches!(ext, Module::External(_)));
    assert_eq!(edges_of(&out, "a.js"), vec!["b.js".to_string(), "node:path".to_string()]);
    assert_eq!(out.modules.len(), 4);
}

#[test]
fn symbols_are_kept_per_module() {
    let mut a = page(&[]);
    a.symbols = vec!["foo".to_string(), "bar".to_string()];
    let h = host(vec![("a.js", a)]);
    let out = run(&["a.js"], &h, false).ok().expect("scan succeeds");
    let id = out.entry_points[0].module_id;
    assert_eq!(out.symbols.tables[id].names, vec!["foo".to_string(), "bar".to_string()]);
    assert!(out.symbols.tables[out.runtime.id].names.is_empty());
}

#[test]
fn runtime_task_is_spawned_once() {
    let mut loader = ModuleLoader::new();
    let first = loader.try_spawn_runtime_module_task();
    assert!(first.is_some());
    assert_eq!(first.unwrap().module_id, 0);
    assert!(loader.try_spawn_runtime_module_task().is_none());
    assert_eq!(loader.paths.len(), 1);
}

#[test]
fn take_err_from_keeps_errors_and_passes_values() {
    let mut b = BatchedErrors::new();
    assert_eq!(b.take_err_from::<u32>(Ok(7)), Some(7));
    assert!(b.is_empty());
    assert_eq!(b.take_err_from::<u32>(Err(BuildError::Message { text: "x".to_string() })), None);
    assert_eq!(b.take_err_from::<u32>(Err(BuildError::Message { text: "y".to_string() })), None);
    assert_eq!(b.len(), 2);
}

#[test]
fn same_target_from_two_importers_shares_one_id() {
    let mut loader = ModuleLoader::new();
    loader.try_spawn_runtime_module_task();
    let info = ResolvedRequestInfo::new("shared.js".to_string(), false);
    let (id1, t1) = loader.try_spawn_new_task(&info, false);
    let (id2, t2) = loader.try_spawn_new_task(&info, false);
    assert_eq!(id1, id2);
    assert!(t1.is_some());
    assert!(t2.is_none());
    assert_eq!(loader.find_module(&"shared.js".to_string()), Some(1));
    assert_eq!(loader.find_module(&"other.js".to_string()), None);
}
