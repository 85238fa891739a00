use js_bootstrap::bootstrap::define;
use js_bootstrap::bootstrap::prepare;
use js_bootstrap::bootstrap::run_model;
use js_bootstrap::bootstrap::settle_compile;
use js_bootstrap::bootstrap::settle_eval;
use js_bootstrap::bootstrap::settle_register;
use js_bootstrap::bootstrap::CompileOutcome;
use js_bootstrap::bootstrap::EvalOutcome;
use js_bootstrap::bootstrap::RegisterOutcome;
use js_bootstrap::loader::ModelHost;
use js_bootstrap::tree::EmbeddedDir;
use js_bootstrap::tree::EmbeddedFile;
use js_bootstrap::walk::collect_tasks;
use js_bootstrap::walk::Task;
use js_bootstrap::walk::Tier;
use js_bootstrap::BootstrapError;

fn file(path: &str, contents: &[u8]) -> EmbeddedFile {
    EmbeddedFile { path: path.to_string(), contents: contents.to_vec() }
}

fn dir(files: Vec<EmbeddedFile>, subdirs: Vec<EmbeddedDir>) -> EmbeddedDir {
    EmbeddedDir { files, subdirs }
}

fn empty_dir() -> EmbeddedDir {
    dir(vec![], vec![])
}

#[test]
fn walk_order_and_filtering() {
    let modules = dir(
        vec![file("a.js", b"1"), file("skip.txt", b"no"), file("b.js", b"2")],
        vec![dir(vec![file("sub/c.js", b"3")], vec![])],
    );
    let init = dir(vec![file("t.js", b"4"), file("notes.md", b"no")], vec![]);
    let tasks: Vec<Task> = collect_tasks(&modules, &init);
    let summary: Vec<(Tier, &str)> =
        tasks.iter().map(|t| (t.tier, t.file.path.as_str())).collect();
    assert_eq!(
        summary,
        vec![
            (Tier::Nested, "a.js"),
            (Tier::Nested, "b.js"),
            (Tier::Global, "t.js"),
            (Tier::Nested, "sub/c.js"),
        ]
    );
}

#[test]
fn prepare_derives_names_and_decodes() {
    let t = Task { tier: Tier::Nested, file: file("node/buffer.js", b"export {};") };
    let a = prepare(&t).unwrap();
    assert_eq!(a.name.as_str(), "jsmodule_buffer");
    assert_eq!(a.source.as_str(), "export {};");

    let g = Task { tier: Tier::Global, file: file("node/timers.js", b"globalThis.x = 1;") };
    let b = prepare(&g).unwrap();
    assert_eq!(b.name.as_str(), "node:timers");
    assert_eq!(b.source.as_str(), "globalThis.x = 1;");
}

#[test]
fn prepare_rejects_bad_input() {
    let t = Task { tier: Tier::Nested, file: file("x.js", &[0xff, 0xfe]) };
    assert_eq!(prepare(&t).unwrap_err(), BootstrapError::NotUtf8);

    let t = Task { tier: Tier::Nested, file: file("x.txt", b"ok") };
    assert_eq!(prepare(&t).unwrap_err(), BootstrapError::UnsupportedPath);

    let t = Task { tier: Tier::Global, file: file("x.txt", b"ok") };
    assert_eq!(prepare(&t).unwrap_err(), BootstrapError::MissingSuffix);
}

#[test]
fn settling_engine_outcomes() {
    assert!(settle_compile(CompileOutcome::Accepted).is_ok());
    assert_eq!(
        settle_compile(CompileOutcome::Rejected).unwrap_err(),
        BootstrapError::CompileFailed
    );
    assert!(settle_register(RegisterOutcome::Accepted).is_ok());
    assert_eq!(
        settle_register(RegisterOutcome::Refused).unwrap_err(),
        BootstrapError::RegistrationRefused
    );
    assert_eq!(
        settle_register(RegisterOutcome::NoLoader).unwrap_err(),
        BootstrapError::LoaderAbsent
    );
    assert!(settle_eval(EvalOutcome::Completed).is_ok());
    // Every eager-evaluation failure collapses into the missing-loader cause.
    assert_eq!(settle_eval(EvalOutcome::Failed).unwrap_err(), BootstrapError::LoaderAbsent);
}

#[test]
fn end_to_end_registers_and_evaluates() {
    let modules = dir(
        vec![],
        vec![dir(vec![file("node/buffer.js", b"export const b = 1;")], vec![])],
    );
    let init = dir(vec![file("timers.js", b"globalThis.t = 1;")], vec![]);
    let mut host = ModelHost::with_loader();
    assert!(define(&modules, &init, &mut host));

    let loader = host.loader.as_ref().unwrap();
    assert_eq!(loader.records.len(), 1);
    assert_eq!(loader.records[0].specifier.as_str(), "jsmodule_buffer");
    assert_eq!(loader.records[0].source.as_str(), "export const b = 1;");
    let spec = "jsmodule_buffer".to_string();
    assert_eq!(loader.resolve(&spec), Some(0));

    // The initializer script ran exactly once, under its derived name.
    assert_eq!(host.evaluated.len(), 1);
    assert_eq!(host.evaluated[0].specifier.as_str(), "timers");
    assert_eq!(host.evaluated[0].source.as_str(), "globalThis.t = 1;");
}

#[test]
fn empty_trees_bootstrap_trivially() {
    let mut host = ModelHost::with_loader();
    assert!(define(&empty_dir(), &empty_dir(), &mut host));
    assert_eq!(host.loader.as_ref().unwrap().records.len(), 0);
    assert_eq!(host.evaluated.len(), 0);
}

#[test]
fn absent_loader_aborts_at_first_nested_file() {
    // The eager initializer pass comes before the subdirectory walk, so the
    // global script is already evaluated when the nested registration fails;
    // it stays evaluated — there is no rollback.
    let modules = dir(vec![], vec![dir(vec![file("sub/x.js", b"1")], vec![])]);
    let init = dir(vec![file("t.js", b"2")], vec![]);
    let mut host = ModelHost::without_loader();
    let r = run_model(&modules, &init, &mut host);
    assert_eq!(r.unwrap_err(), BootstrapError::LoaderAbsent);
    assert!(host.loader.is_none());
    assert_eq!(host.evaluated.len(), 1);
    assert_eq!(host.evaluated[0].specifier.as_str(), "t");
}

#[test]
fn non_utf8_contents_abort_the_walk() {
    let modules = dir(vec![file("ok.js", b"1"), file("zz.js", &[0xff])], vec![]);
    let mut host = ModelHost::with_loader();
    let r = run_model(&modules, &empty_dir(), &mut host);
    assert_eq!(r.unwrap_err(), BootstrapError::NotUtf8);
    // The file processed before the failure stays registered.
    let loader = host.loader.as_ref().unwrap();
    assert_eq!(loader.records.len(), 1);
    assert_eq!(loader.records[0].specifier.as_str(), "jsmodule_ok");
}

#[test]
fn shared_file_names_collide_in_the_flat_namespace() {
    // Two nested-tier files in different subdirectories derive the same
    // specifier. The model loader keeps both registrations, in walk order,
    // and resolution returns the later one: it shadows the earlier.
    let modules = dir(
        vec![],
        vec![
            dir(vec![file("a/x.js", b"first")], vec![]),
            dir(vec![file("b/x.js", b"second")], vec![]),
        ],
    );
    let mut host = ModelHost::with_loader();
    assert!(define(&modules, &empty_dir(), &mut host));
    let loader = host.loader.as_ref().unwrap();
    assert_eq!(loader.records.len(), 2);
    assert_eq!(loader.records[0].specifier.as_str(), "jsmodule_x");
    assert_eq!(loader.records[0].source.as_str(), "first");
    assert_eq!(loader.records[1].specifier.as_str(), "jsmodule_x");
    assert_eq!(loader.records[1].source.as_str(), "second");
    let spec = "jsmodule_x".to_string();
    assert_eq!(loader.resolve(&spec), Some(1));
}

#[test]
fn deeply_nested_initializer_files_are_not_evaluated() {
    // A file one level below the initializer directory is out of the eager
    // pass: only files directly inside it are evaluated.
    let init = dir(vec![file("run.js", b"1")], vec![dir(vec![file("deep/skip.js", b"2")], vec![])]);
    let mut host = ModelHost::with_loader();
    assert!(define(&empty_dir(), &init, &mut host));
    assert_eq!(host.evaluated.len(), 1);
    assert_eq!(host.evaluated[0].specifier.as_str(), "run");
    assert_eq!(host.loader.as_ref().unwrap().records.len(), 0);
}

#[test]
fn resolve_misses_unknown_specifiers() {
    let mut host = ModelHost::with_loader();
    assert!(define(&empty_dir(), &empty_dir(), &mut host));
    let spec = "jsmodule_ghost".to_string();
    assert_eq!(host.loader.as_ref().unwrap().resolve(&spec), None);
}
