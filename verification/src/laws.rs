//! What holds of the bootstrap as a whole, proved over the walk and the
//! run: every nested source is registered under its derived specifier at
//! any depth; only recognized sources are touched; the eager pass covers
//! exactly the initializer directory's own files; a missing loader aborts
//! at the first nested task without rolling back; with a loader attached
//! and well-formed sources the run must succeed; and the flat nested
//! namespace makes shared file names collide.
use vstd::prelude::*;
use vstd::utf8::decode_utf8;
use vstd::utf8::valid_utf8;
use crate::BootstrapError;
use crate::specifier::is_source_path;
use crate::specifier::file_name_of;
use crate::specifier::name_start;
use crate::specifier::spec_nested_specifier;
use crate::specifier::spec_global_specifier;
use crate::specifier::lemma_name_start_bounds;
use crate::specifier::lemma_source_path_has_suffix;
use crate::tree::FileView;
use crate::tree::DirView;
use crate::walk::Tier;
use crate::walk::TaskView;
use crate::walk::nested_tasks;
use crate::walk::global_tasks;
use crate::walk::dir_tasks;
use crate::walk::subdirs_tasks;
use crate::bootstrap::spec_prepare;
use crate::bootstrap::spec_apply;
use crate::bootstrap::spec_run;
use crate::loader::RecordView;
use crate::loader::HostView;

verus! {

/// Whether `f` is one of the files of the nested tier rooted at `dir`,
/// at any depth.
pub open spec fn in_nested_tier(dir: DirView, f: FileView) -> bool
    decreases dir,
{
    dir.files.contains(f) || exists|i: int|
        0 <= i < dir.subdirs.len() && in_nested_tier(#[trigger] dir.subdirs[i], f)
}

/// The global-tier tasks among `tasks`, in order.
pub open spec fn eager_part(tasks: Seq<TaskView>) -> Seq<TaskView>
    decreases tasks.len(),
{
    if tasks.len() == 0 {
        Seq::empty()
    } else {
        eager_part(tasks.drop_last()) + (if tasks.last().tier is Global {
            seq![tasks.last()]
        } else {
            Seq::empty()
        })
    }
}

pub proof fn lemma_eager_part_add(a: Seq<TaskView>, b: Seq<TaskView>)
    ensures
        eager_part(a + b) == eager_part(a) + eager_part(b),
    decreases b.len(),
{
    if b.len() == 0 {
        assert(a + b =~= a);
        assert(eager_part(a) + eager_part(b) =~= eager_part(a));
    } else {
        assert((a + b).drop_last() =~= a + b.drop_last());
        assert((a + b).last() == b.last());
        lemma_eager_part_add(a, b.drop_last());
        assert(eager_part(a) + eager_part(b.drop_last()) + (if b.last().tier is Global {
            seq![b.last()]
        } else {
            Seq::<TaskView>::empty()
        }) =~= eager_part(a) + eager_part(b));
    }
}

pub proof fn lemma_eager_part_one(t: TaskView)
    ensures
        eager_part(seq![t]) == (if t.tier is Global {
            seq![t]
        } else {
            Seq::<TaskView>::empty()
        }),
{
    assert(seq![t].drop_last() =~= Seq::<TaskView>::empty());
    assert(seq![t].last() == t);
    assert(eager_part(Seq::<TaskView>::empty()) == Seq::<TaskView>::empty());
    assert(eager_part(seq![t]) =~= (if t.tier is Global {
        seq![t]
    } else {
        Seq::<TaskView>::empty()
    }));
}

pub proof fn lemma_nested_tasks_all_nested(files: Seq<FileView>)
    ensures
        forall|k: int| 0 <= k < nested_tasks(files).len() ==> {
            &&& (#[trigger] nested_tasks(files)[k]).tier is Nested
            &&& is_source_path(nested_tasks(files)[k].file.path)
            &&& files.contains(nested_tasks(files)[k].file)
        },
    decreases files.len(),
{
    if files.len() > 0 {
        lemma_nested_tasks_all_nested(files.drop_last());
        assert(forall|j: int| 0 <= j < files.drop_last().len() ==> files.drop_last()[j] == files[j]);
        assert(forall|j: int|
            0 <= j < files.drop_last().len() && files.drop_last().contains(
                #[trigger] files.drop_last()[j],
            ) ==> files.contains(files.drop_last()[j]));
        assert(files.contains(files.last()));
    }
}

pub proof fn lemma_global_tasks_all_global(files: Seq<FileView>)
    ensures
        forall|k: int| 0 <= k < global_tasks(files).len() ==> {
            &&& (#[trigger] global_tasks(files)[k]).tier is Global
            &&& is_source_path(global_tasks(files)[k].file.path)
            &&& files.contains(global_tasks(files)[k].file)
        },
    decreases files.len(),
{
    if files.len() > 0 {
        lemma_global_tasks_all_global(files.drop_last());
        assert(files.contains(files.last()));
    }
}

pub proof fn lemma_eager_part_nested_tasks(files: Seq<FileView>)
    ensures
        eager_part(nested_tasks(files)) == Seq::<TaskView>::empty(),
    decreases files.len(),
{
    if files.len() == 0 {
    } else {
        lemma_eager_part_nested_tasks(files.drop_last());
        lemma_eager_part_add(
            nested_tasks(files.drop_last()),
            if is_source_path(files.last().path) {
                seq![TaskView { tier: Tier::Nested, file: files.last() }]
            } else {
                Seq::empty()
            },
        );
        lemma_eager_part_one(TaskView { tier: Tier::Nested, file: files.last() });
        assert(eager_part(Seq::<TaskView>::empty()) == Seq::<TaskView>::empty());
        assert(eager_part(nested_tasks(files)) =~= Seq::<TaskView>::empty());
    }
}

pub proof fn lemma_eager_part_global_tasks(files: Seq<FileView>)
    ensures
        eager_part(global_tasks(files)) == global_tasks(files),
    decreases files.len(),
{
    if files.len() == 0 {
    } else {
        lemma_eager_part_global_tasks(files.drop_last());
        lemma_eager_part_add(
            global_tasks(files.drop_last()),
            if is_source_path(files.last().path) {
                seq![TaskView { tier: Tier::Global, file: files.last() }]
            } else {
                Seq::empty()
            },
        );
        lemma_eager_part_one(TaskView { tier: Tier::Global, file: files.last() });
        assert(eager_part(Seq::<TaskView>::empty()) == Seq::<TaskView>::empty());
        assert(eager_part(global_tasks(files)) =~= global_tasks(files));
    }
}

pub proof fn lemma_eager_part_dir_none(dir: DirView)
    ensures
        eager_part(dir_tasks(dir, Option::None)) == Seq::<TaskView>::empty(),
    decreases dir,
{
    lemma_eager_part_nested_tasks(dir.files);
    lemma_eager_part_subdirs(dir.subdirs);
    lemma_eager_part_add(nested_tasks(dir.files), Seq::empty());
    lemma_eager_part_add(nested_tasks(dir.files) + Seq::empty(), subdirs_tasks(dir.subdirs));
    assert(eager_part(dir_tasks(dir, Option::None)) =~= Seq::<TaskView>::empty());
}

pub proof fn lemma_eager_part_subdirs(dirs: Seq<DirView>)
    ensures
        eager_part(subdirs_tasks(dirs)) == Seq::<TaskView>::empty(),
    decreases dirs,
{
    if dirs.len() == 0 {
    } else {
        lemma_eager_part_subdirs(dirs.drop_last());
        lemma_eager_part_dir_none(dirs.last());
        lemma_eager_part_add(subdirs_tasks(dirs.drop_last()), dir_tasks(dirs.last(), Option::None));
        assert(eager_part(subdirs_tasks(dirs)) =~= Seq::<TaskView>::empty());
    }
}

/// The eager, global-tier part of one bootstrap walk is exactly one task
/// per source file directly inside the initializer directory, in the
/// tree's order — files nested more deeply are never eagerly evaluated,
/// however deep the modules subtree reaches.
pub proof fn lemma_eager_exactly_init_files(modules: DirView, init: DirView)
    ensures
        eager_part(dir_tasks(modules, Option::Some(init))) == global_tasks(init.files),
{
    lemma_eager_part_nested_tasks(modules.files);
    lemma_eager_part_global_tasks(init.files);
    lemma_eager_part_subdirs(modules.subdirs);
    lemma_eager_part_add(nested_tasks(modules.files), global_tasks(init.files));
    lemma_eager_part_add(
        nested_tasks(modules.files) + global_tasks(init.files),
        subdirs_tasks(modules.subdirs),
    );
    assert(eager_part(dir_tasks(modules, Option::Some(init))) =~= global_tasks(init.files));
}

/// Every task of a walk concerns a file with the recognized source
/// extension: a file without it is neither compiled nor registered nor
/// evaluated, wherever it sits in the tree.
pub proof fn lemma_only_sources_scheduled(dir: DirView, init: Option<DirView>)
    ensures
        forall|k: int| 0 <= k < dir_tasks(dir, init).len() ==> is_source_path(
            (#[trigger] dir_tasks(dir, init)[k]).file.path,
        ),
    decreases dir,
{
    lemma_nested_tasks_all_nested(dir.files);
    if init is Some {
        lemma_global_tasks_all_global(init->Some_0.files);
    }
    lemma_subdirs_sources(dir.subdirs);
}

pub proof fn lemma_subdirs_sources(dirs: Seq<DirView>)
    ensures
        forall|k: int| 0 <= k < subdirs_tasks(dirs).len() ==> is_source_path(
            (#[trigger] subdirs_tasks(dirs)[k]).file.path,
        ),
    decreases dirs,
{
    if dirs.len() > 0 {
        lemma_subdirs_sources(dirs.drop_last());
        lemma_only_sources_scheduled(dirs.last(), Option::None);
    }
}

/// Every global-tier task of a walk takes its file directly from the
/// initializer directory: deeper files never reach the eager path.
pub proof fn lemma_eager_only_direct_files(modules: DirView, init: DirView, k: int)
    requires
        0 <= k < dir_tasks(modules, Option::Some(init)).len(),
        dir_tasks(modules, Option::Some(init))[k].tier is Global,
    ensures
        init.files.contains(dir_tasks(modules, Option::Some(init))[k].file),
{
    let tasks = dir_tasks(modules, Option::Some(init));
    lemma_nested_tasks_all_nested(modules.files);
    lemma_global_tasks_all_global(init.files);
    lemma_subdirs_all_nested(modules.subdirs);
    let a = nested_tasks(modules.files);
    let b = global_tasks(init.files);
    let c = subdirs_tasks(modules.subdirs);
    assert(tasks =~= a + b + c);
    if k < a.len() {
        assert(tasks[k] == a[k]);
        assert(false);
    } else if k < a.len() + b.len() {
        assert(tasks[k] == b[k - a.len()]);
    } else {
        assert(tasks[k] == c[k - a.len() - b.len()]);
        assert(false);
    }
}

pub proof fn lemma_subdirs_all_nested(dirs: Seq<DirView>)
    ensures
        forall|k: int| 0 <= k < subdirs_tasks(dirs).len() ==> (#[trigger] subdirs_tasks(
            dirs,
        )[k]).tier is Nested,
    decreases dirs,
{
    if dirs.len() > 0 {
        lemma_subdirs_all_nested(dirs.drop_last());
        lemma_dir_none_all_nested(dirs.last());
    }
}

pub proof fn lemma_dir_none_all_nested(dir: DirView)
    ensures
        forall|k: int| 0 <= k < dir_tasks(dir, Option::None).len() ==> (#[trigger] dir_tasks(
            dir,
            Option::None,
        )[k]).tier is Nested,
    decreases dir,
{
    lemma_nested_tasks_all_nested(dir.files);
    lemma_subdirs_all_nested(dir.subdirs);
}

pub proof fn lemma_contains_add_left<A>(a: Seq<A>, b: Seq<A>, x: A)
    requires
        a.contains(x),
    ensures
        (a + b).contains(x),
{
    let i = choose|i: int| 0 <= i < a.len() && a[i] == x;
    assert((a + b)[i] == x);
}

pub proof fn lemma_contains_add_right<A>(a: Seq<A>, b: Seq<A>, x: A)
    requires
        b.contains(x),
    ensures
        (a + b).contains(x),
{
    let i = choose|i: int| 0 <= i < b.len() && b[i] == x;
    assert((a + b)[a.len() + i] == x);
}

pub proof fn lemma_nested_tasks_membership(files: Seq<FileView>, f: FileView)
    requires
        files.contains(f),
        is_source_path(f.path),
    ensures
        nested_tasks(files).contains(TaskView { tier: Tier::Nested, file: f }),
    decreases files.len(),
{
    let t = TaskView { tier: Tier::Nested, file: f };
    let i = choose|i: int| 0 <= i < files.len() && files[i] == f;
    if i == files.len() - 1 {
        let a = nested_tasks(files.drop_last());
        assert(nested_tasks(files)[a.len() as int] == t);
    } else {
        assert(files.drop_last()[i] == f);
        lemma_nested_tasks_membership(files.drop_last(), f);
        lemma_contains_add_left(
            nested_tasks(files.drop_last()),
            if is_source_path(files.last().path) {
                seq![TaskView { tier: Tier::Nested, file: files.last() }]
            } else {
                Seq::empty()
            },
            t,
        );
    }
}

pub proof fn lemma_subdirs_tasks_membership(dirs: Seq<DirView>, i: int, t: TaskView)
    requires
        0 <= i < dirs.len(),
        dir_tasks(dirs[i], Option::None).contains(t),
    ensures
        subdirs_tasks(dirs).contains(t),
    decreases dirs.len(),
{
    if i == dirs.len() - 1 {
        lemma_contains_add_right(
            subdirs_tasks(dirs.drop_last()),
            dir_tasks(dirs.last(), Option::None),
            t,
        );
    } else {
        assert(dirs.drop_last()[i] == dirs[i]);
        lemma_subdirs_tasks_membership(dirs.drop_last(), i, t);
        lemma_contains_add_left(
            subdirs_tasks(dirs.drop_last()),
            dir_tasks(dirs.last(), Option::None),
            t,
        );
    }
}

/// Every source file of the nested tier, at whatever depth, has its task in
/// the walk.
pub proof fn lemma_walk_contains_nested(dir: DirView, init: Option<DirView>, f: FileView)
    requires
        in_nested_tier(dir, f),
        is_source_path(f.path),
    ensures
        dir_tasks(dir, init).contains(TaskView { tier: Tier::Nested, file: f }),
    decreases dir,
{
    let t = TaskView { tier: Tier::Nested, file: f };
    let ipart: Seq<TaskView> = match init {
        Option::Some(d) => global_tasks(d.files),
        Option::None => Seq::empty(),
    };
    if dir.files.contains(f) {
        lemma_nested_tasks_membership(dir.files, f);
        lemma_contains_add_left(nested_tasks(dir.files), ipart, t);
        lemma_contains_add_left(nested_tasks(dir.files) + ipart, subdirs_tasks(dir.subdirs), t);
    } else {
        let i = choose|i: int| 0 <= i < dir.subdirs.len() && in_nested_tier(dir.subdirs[i], f);
        lemma_walk_contains_nested(dir.subdirs[i], Option::None, f);
        lemma_subdirs_tasks_membership(dir.subdirs, i, t);
        lemma_contains_add_right(nested_tasks(dir.files) + ipart, subdirs_tasks(dir.subdirs), t);
    }
}

/// The record a task leaves behind when it succeeds: the name its tier's
/// rule derives, with the decoded source text.
pub open spec fn record_of(t: TaskView) -> RecordView {
    match t.tier {
        Tier::Nested => RecordView {
            specifier: spec_nested_specifier(t.file.path),
            source: decode_utf8(t.file.contents),
        },
        Tier::Global => RecordView {
            specifier: spec_global_specifier(t.file.path),
            source: decode_utf8(t.file.contents),
        },
    }
}

/// The records the nested-tier tasks of a run register, in order.
pub open spec fn nested_records(tasks: Seq<TaskView>) -> Seq<RecordView>
    decreases tasks.len(),
{
    if tasks.len() == 0 {
        Seq::empty()
    } else {
        (if tasks[0].tier is Nested {
            seq![record_of(tasks[0])]
        } else {
            Seq::empty()
        }) + nested_records(tasks.drop_first())
    }
}

/// The records the global-tier tasks of a run evaluate, in order.
pub open spec fn global_records(tasks: Seq<TaskView>) -> Seq<RecordView>
    decreases tasks.len(),
{
    if tasks.len() == 0 {
        Seq::empty()
    } else {
        (if tasks[0].tier is Global {
            seq![record_of(tasks[0])]
        } else {
            Seq::empty()
        }) + global_records(tasks.drop_first())
    }
}

/// A successful run adds to the loader exactly the nested-tier records and
/// to the evaluation log exactly the global-tier records, each list in task
/// order, on top of whatever was there before.
pub proof fn lemma_run_success_effect(tasks: Seq<TaskView>, h: HostView)
    requires
        spec_run(tasks, h).0 is Ok,
    ensures
        spec_run(tasks, h).1.evaluated == h.evaluated + global_records(tasks),
        h.loader is Some ==> spec_run(tasks, h).1.loader is Some && spec_run(
            tasks,
            h,
        ).1.loader->Some_0 == h.loader->Some_0 + nested_records(tasks),
        h.loader is None ==> spec_run(tasks, h).1.loader is None,
    decreases tasks.len(),
{
    if tasks.len() == 0 {
        assert(h.evaluated + global_records(tasks) =~= h.evaluated);
        if h.loader is Some {
            assert(h.loader->Some_0 + nested_records(tasks) =~= h.loader->Some_0);
        }
    } else {
        let t = tasks[0];
        let applied = spec_apply(h, t);
        assert(applied is Ok);
        let h2 = applied->Ok_0;
        lemma_run_success_effect(tasks.drop_first(), h2);
        let rest = tasks.drop_first();
        match t.tier {
            Tier::Nested => {
                assert(h.loader is Some);
                assert(h2.loader->Some_0 == h.loader->Some_0.push(record_of(t)));
                assert(h2.evaluated == h.evaluated);
                assert(h.loader->Some_0.push(record_of(t)) + nested_records(rest)
                    =~= h.loader->Some_0 + nested_records(tasks));
                assert(h.evaluated + global_records(rest) =~= h.evaluated + global_records(tasks));
            },
            Tier::Global => {
                assert(h2.evaluated == h.evaluated.push(record_of(t)));
                assert(h2.loader == h.loader);
                assert(h.evaluated.push(record_of(t)) + global_records(rest) =~= h.evaluated
                    + global_records(tasks));
                if h.loader is Some {
                    assert(h.loader->Some_0 + nested_records(rest) =~= h.loader->Some_0
                        + nested_records(tasks));
                }
            },
        }
    }
}

pub proof fn lemma_nested_records_membership(tasks: Seq<TaskView>, k: int)
    requires
        0 <= k < tasks.len(),
        tasks[k].tier is Nested,
    ensures
        nested_records(tasks).contains(record_of(tasks[k])),
    decreases tasks.len(),
{
    if k == 0 {
        assert(nested_records(tasks)[0] == record_of(tasks[0]));
    } else {
        assert(tasks.drop_first()[k - 1] == tasks[k]);
        lemma_nested_records_membership(tasks.drop_first(), k - 1);
        lemma_contains_add_right(
            if tasks[0].tier is Nested {
                seq![record_of(tasks[0])]
            } else {
                Seq::empty()
            },
            nested_records(tasks.drop_first()),
            record_of(tasks[k]),
        );
    }
}

/// When the bootstrap succeeds, every source file anywhere under the nested
/// tier stands registered with the loader under its derived specifier, with
/// its decoded source, whatever subdirectory it came from.
pub proof fn lemma_nested_sources_registered(
    modules: DirView,
    init: DirView,
    h: HostView,
    f: FileView,
)
    requires
        h.loader is Some,
        in_nested_tier(modules, f),
        is_source_path(f.path),
        spec_run(dir_tasks(modules, Option::Some(init)), h).0 is Ok,
    ensures
        spec_run(dir_tasks(modules, Option::Some(init)), h).1.loader is Some,
        spec_run(dir_tasks(modules, Option::Some(init)), h).1.loader->Some_0.contains(
            RecordView {
                specifier: spec_nested_specifier(f.path),
                source: decode_utf8(f.contents),
            },
        ),
{
    let tasks = dir_tasks(modules, Option::Some(init));
    let t = TaskView { tier: Tier::Nested, file: f };
    lemma_walk_contains_nested(modules, Option::Some(init), f);
    let k = choose|k: int| 0 <= k < tasks.len() && tasks[k] == t;
    lemma_nested_records_membership(tasks, k);
    lemma_run_success_effect(tasks, h);
    lemma_contains_add_right(h.loader->Some_0, nested_records(tasks), record_of(t));
}

/// With no loader attached, the run aborts with the missing-loader cause at
/// the first nested-tier task — provided each file up to there is well
/// formed — and the initializer scripts evaluated before that point stay
/// evaluated: nothing is rolled back.
pub proof fn lemma_no_loader_aborts(tasks: Seq<TaskView>, h: HostView, i: int)
    requires
        h.loader is None,
        0 <= i < tasks.len(),
        tasks[i].tier is Nested,
        forall|j: int| 0 <= j < i ==> (#[trigger] tasks[j]).tier is Global,
        forall|j: int| 0 <= j <= i ==> spec_prepare(#[trigger] tasks[j]) is Ok,
    ensures
        spec_run(tasks, h).0 == Result::<(), BootstrapError>::Err(BootstrapError::LoaderAbsent),
        spec_run(tasks, h).1.loader is None,
        spec_run(tasks, h).1.evaluated == h.evaluated + global_records(tasks.take(i)),
    decreases i,
{
    if i == 0 {
        assert(spec_apply(h, tasks[0]) == Result::<HostView, BootstrapError>::Err(
            BootstrapError::LoaderAbsent,
        ));
        assert(h.evaluated + global_records(tasks.take(0)) =~= h.evaluated);
    } else {
        let t = tasks[0];
        assert(t.tier is Global);
        let h2 = spec_apply(h, t)->Ok_0;
        assert(h2.evaluated == h.evaluated.push(record_of(t)));
        assert(h2.loader is None);
        let rest = tasks.drop_first();
        assert(forall|j: int| 0 <= j < i - 1 ==> (#[trigger] rest[j]).tier is Global);
        assert(forall|j: int| 0 <= j <= i - 1 ==> spec_prepare(#[trigger] rest[j]) is Ok);
        assert(rest[i - 1] == tasks[i]);
        lemma_no_loader_aborts(rest, h2, i - 1);
        assert(tasks.take(i).drop_first() =~= rest.take(i - 1));
        assert(tasks.take(i)[0] == t);
        assert(h.evaluated.push(record_of(t)) + global_records(rest.take(i - 1)) =~= h.evaluated
            + global_records(tasks.take(i)));
    }
}

/// When the bootstrap succeeds, the eager evaluations are exactly those of
/// the global-tier tasks of the initializer directory's own files, in the
/// tree's order, on top of whatever had been evaluated before.
pub proof fn lemma_eager_evaluations_exact(modules: DirView, init: DirView, h: HostView)
    requires
        spec_run(dir_tasks(modules, Option::Some(init)), h).0 is Ok,
    ensures
        spec_run(dir_tasks(modules, Option::Some(init)), h).1.evaluated == h.evaluated
            + global_records(global_tasks(init.files)),
{
    let tasks = dir_tasks(modules, Option::Some(init));
    lemma_run_success_effect(tasks, h);
    let a = nested_tasks(modules.files);
    let b = global_tasks(init.files);
    let c = subdirs_tasks(modules.subdirs);
    lemma_nested_tasks_all_nested(modules.files);
    lemma_subdirs_all_nested(modules.subdirs);
    lemma_global_records_add(a, b + c);
    lemma_global_records_add(b, c);
    lemma_all_nested_no_global_records(a);
    lemma_all_nested_no_global_records(c);
    assert(tasks == a + (b + c));
    assert(h.evaluated + global_records(tasks) =~= h.evaluated + global_records(b));
}

pub proof fn lemma_global_records_add(a: Seq<TaskView>, b: Seq<TaskView>)
    ensures
        global_records(a + b) == global_records(a) + global_records(b),
    decreases a.len(),
{
    if a.len() == 0 {
        assert(a + b =~= b);
        assert(global_records(a) + global_records(b) =~= global_records(b));
    } else {
        assert((a + b)[0] == a[0]);
        assert((a + b).drop_first() =~= a.drop_first() + b);
        lemma_global_records_add(a.drop_first(), b);
        assert((if a[0].tier is Global {
            seq![record_of(a[0])]
        } else {
            Seq::<RecordView>::empty()
        }) + (global_records(a.drop_first()) + global_records(b)) =~= global_records(a)
            + global_records(b));
    }
}

pub proof fn lemma_all_nested_no_global_records(tasks: Seq<TaskView>)
    requires
        forall|k: int| 0 <= k < tasks.len() ==> (#[trigger] tasks[k]).tier is Nested,
    ensures
        global_records(tasks) == Seq::<RecordView>::empty(),
    decreases tasks.len(),
{
    if tasks.len() > 0 {
        assert(forall|k: int|
            0 <= k < tasks.drop_first().len() ==> (#[trigger] tasks.drop_first()[k]).tier
                is Nested);
        lemma_all_nested_no_global_records(tasks.drop_first());
        assert(global_records(tasks) =~= Seq::<RecordView>::empty());
    }
}

/// A task the walk scheduled can only fail preparation on its contents: the
/// extension filter already guarantees that its name derives, whichever
/// tier's rule applies, so only non-UTF-8 text aborts it.
pub proof fn lemma_walk_tasks_fail_only_on_contents(dir: DirView, init: Option<DirView>, k: int)
    requires
        0 <= k < dir_tasks(dir, init).len(),
    ensures
        spec_prepare(dir_tasks(dir, init)[k]) is Ok <==> valid_utf8(
            dir_tasks(dir, init)[k].file.contents,
        ),
        spec_prepare(dir_tasks(dir, init)[k]) is Err ==> spec_prepare(
            dir_tasks(dir, init)[k],
        )->Err_0 == BootstrapError::NotUtf8,
{
    lemma_only_sources_scheduled(dir, init);
    let t = dir_tasks(dir, init)[k];
    lemma_source_path_has_suffix(t.file.path);
}

/// With a loader attached, a run over tasks that all prepare cleanly cannot
/// fail: nothing else in the procedure can abort it.
pub proof fn lemma_run_success_condition(tasks: Seq<TaskView>, h: HostView)
    requires
        h.loader is Some,
        forall|k: int| 0 <= k < tasks.len() ==> spec_prepare(#[trigger] tasks[k]) is Ok,
    ensures
        spec_run(tasks, h).0 is Ok,
    decreases tasks.len(),
{
    if tasks.len() > 0 {
        let h2 = spec_apply(h, tasks[0])->Ok_0;
        assert(h2.loader is Some);
        assert(forall|k: int|
            0 <= k < tasks.drop_first().len() ==> spec_prepare(
                #[trigger] tasks.drop_first()[k],
            ) is Ok);
        lemma_run_success_condition(tasks.drop_first(), h2);
    }
}

/// Success is owed: when a loader is attached and every scheduled file's
/// contents are valid UTF-8, the bootstrap goes through — the extension
/// filter already settled every other way a task could fail.
pub proof fn lemma_bootstrap_succeeds_on_valid_trees(modules: DirView, init: DirView, h: HostView)
    requires
        h.loader is Some,
        forall|k: int|
            0 <= k < dir_tasks(modules, Option::Some(init)).len() ==> valid_utf8(
                (#[trigger] dir_tasks(modules, Option::Some(init))[k]).file.contents,
            ),
    ensures
        spec_run(dir_tasks(modules, Option::Some(init)), h).0 is Ok,
{
    let tasks = dir_tasks(modules, Option::Some(init));
    assert forall|k: int| 0 <= k < tasks.len() implies spec_prepare(#[trigger] tasks[k]) is Ok by {
        lemma_walk_tasks_fail_only_on_contents(modules, Option::Some(init), k);
    }
    lemma_run_success_condition(tasks, h);
}

/// The nested-tier naming rule drops the directory path: two source files
/// that share a file name derive the same specifier, wherever they live —
/// the flat namespace makes such registrations collide.
pub proof fn lemma_shared_name_collides(p1: Seq<char>, p2: Seq<char>)
    requires
        is_source_path(p1),
        file_name_of(p1) == file_name_of(p2),
    ensures
        is_source_path(p2),
        spec_nested_specifier(p1) == spec_nested_specifier(p2),
{
    lemma_name_start_bounds(p1);
    lemma_name_start_bounds(p2);
    let n1 = file_name_of(p1);
    let n2 = file_name_of(p2);
    assert(p1.subrange(name_start(p1), p1.len() - 3) =~= n1.take(n1.len() - 3));
    assert(p2.subrange(name_start(p2), p2.len() - 3) =~= n2.take(n2.len() - 3));
}

} // verus!
