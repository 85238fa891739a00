//! The tree walker: flattens one bootstrap run into its ordered list of
//! tasks — nested-tier registrations and the one-time eager pass over the
//! initializer directory — filtering out every file without the recognized
//! extension.
use vstd::prelude::*;
use crate::specifier::is_source_path;
use crate::specifier::is_source_file;
use crate::tree::EmbeddedDir;
use crate::tree::FileView;
use crate::tree::DirView;
use crate::tree::files_view;
use crate::tree::dirs_view;
use crate::tree::dir_view;
use crate::tree::lemma_dirs_view;

verus! {

/// The two registration tiers: nested-tier files become importable modules,
/// global-tier files are evaluated eagerly during initialization.
#[derive(Clone, Copy, Debug, PartialEq, Eq, Structural)]
pub enum Tier {
    Nested,
    Global,
}

/// One unit of bootstrap work: a source file together with the tier it was
/// found under.
#[derive(Debug)]
pub struct Task {
    pub tier: Tier,
    pub file: crate::tree::EmbeddedFile,
}

/// What a `Task` is mathematically.
pub ghost struct TaskView {
    pub tier: Tier,
    pub file: FileView,
}

impl View for Task {
    type V = TaskView;

    open spec fn view(&self) -> TaskView {
        TaskView { tier: self.tier, file: self.file@ }
    }
}

pub open spec fn tasks_view(ts: Seq<Task>) -> Seq<TaskView> {
    ts.map_values(|t: Task| t@)
}

pub proof fn lemma_tasks_view_push(ts: Seq<Task>, t: Task)
    ensures
        tasks_view(ts.push(t)) == tasks_view(ts).push(t@),
{
    assert(tasks_view(ts.push(t)) =~= tasks_view(ts).push(t@));
}

/// The nested-tier tasks arising from the files directly inside one
/// directory: one per source file, in the tree's order, every other file
/// skipped.
pub open spec fn nested_tasks(files: Seq<FileView>) -> Seq<TaskView>
    decreases files.len(),
{
    if files.len() == 0 {
        Seq::empty()
    } else {
        nested_tasks(files.drop_last()) + (if is_source_path(files.last().path) {
            seq![TaskView { tier: Tier::Nested, file: files.last() }]
        } else {
            Seq::empty()
        })
    }
}

/// The global-tier tasks arising from the files directly inside the
/// initializer directory: one per source file, in the tree's order.
pub open spec fn global_tasks(files: Seq<FileView>) -> Seq<TaskView>
    decreases files.len(),
{
    if files.len() == 0 {
        Seq::empty()
    } else {
        global_tasks(files.drop_last()) + (if is_source_path(files.last().path) {
            seq![TaskView { tier: Tier::Global, file: files.last() }]
        } else {
            Seq::empty()
        })
    }
}

/// Every task the walk of `dir` produces, in processing order: first the
/// nested-tier tasks for the files directly inside `dir`, then — for the
/// outermost call only — the global-tier tasks for the files directly inside
/// the initializer directory, then the tasks of each subdirectory in turn.
/// Recursive calls pass no initializer directory, so eager evaluation never
/// reaches files nested more deeply.
pub open spec fn dir_tasks(dir: DirView, init: Option<DirView>) -> Seq<TaskView>
    decreases dir,
{
    nested_tasks(dir.files) + (match init {
        Option::Some(d) => global_tasks(d.files),
        Option::None => Seq::empty(),
    }) + subdirs_tasks(dir.subdirs)
}

pub open spec fn subdirs_tasks(dirs: Seq<DirView>) -> Seq<TaskView>
    decreases dirs,
{
    if dirs.len() == 0 {
        Seq::empty()
    } else {
        subdirs_tasks(dirs.drop_last()) + dir_tasks(dirs.last(), Option::None)
    }
}

pub open spec fn init_view(init: Option<&EmbeddedDir>) -> Option<DirView> {
    match init {
        Option::Some(d) => Option::Some(dir_view(*d)),
        Option::None => Option::None,
    }
}

/// Walks one directory of the embedded tree and appends its tasks to `out`
/// in processing order. Passing `init` asks, in addition, for the eager
/// global-tier pass over the files directly inside the initializer
/// directory; the recursive calls never pass it on.
pub fn collect_dir_tasks(dir: &EmbeddedDir, init: Option<&EmbeddedDir>, out: &mut Vec<Task>)
    ensures
        tasks_view(final(out)@) == tasks_view(old(out)@) + dir_tasks(dir@, init_view(init)),
    decreases dir,
{
    let ghost base = tasks_view(out@);
    let ghost fv = files_view(dir.files@);
    let mut i: usize = 0;
    while i < dir.files.len()
        invariant
            i <= dir.files@.len(),
            fv == files_view(dir.files@),
            tasks_view(out@) == base + nested_tasks(fv.take(i as int)),
        decreases dir.files@.len() - i,
    {
        let f = &dir.files[i];
        if is_source_file(f.path.as_str()) {
            let t = Task { tier: Tier::Nested, file: f.duplicate() };
            proof {
                lemma_tasks_view_push(out@, t);
            }
            out.push(t);
        }
        proof {
            assert(fv.take(i + 1).drop_last() =~= fv.take(i as int));
            assert(fv.take(i + 1).last() == dir.files@[i as int]@);
            assert(tasks_view(out@) =~= base + nested_tasks(fv.take(i + 1)));
        }
        i = i + 1;
    }
    proof {
        assert(fv.take(dir.files@.len() as int) =~= fv);
    }
    let ghost after_files = tasks_view(out@);
    if let Some(d) = init {
        let ghost gv = files_view(d.files@);
        let mut i: usize = 0;
        while i < d.files.len()
            invariant
                i <= d.files@.len(),
                gv == files_view(d.files@),
                tasks_view(out@) == after_files + global_tasks(gv.take(i as int)),
            decreases d.files@.len() - i,
        {
            let f = &d.files[i];
            if is_source_file(f.path.as_str()) {
                let t = Task { tier: Tier::Global, file: f.duplicate() };
                proof {
                    lemma_tasks_view_push(out@, t);
                }
                out.push(t);
            }
            proof {
                assert(gv.take(i + 1).drop_last() =~= gv.take(i as int));
                assert(gv.take(i + 1).last() == d.files@[i as int]@);
                assert(tasks_view(out@) =~= after_files + global_tasks(gv.take(i + 1)));
            }
            i = i + 1;
        }
        proof {
            assert(gv.take(d.files@.len() as int) =~= gv);
        }
    }
    let ghost after_init = tasks_view(out@);
    let ghost dv = dirs_view(dir.subdirs@);
    let mut j: usize = 0;
    while j < dir.subdirs.len()
        invariant
            j <= dir.subdirs@.len(),
            dv == dirs_view(dir.subdirs@),
            tasks_view(out@) == after_init + subdirs_tasks(dv.take(j as int)),
        decreases dir.subdirs@.len() - j,
    {
        proof {
            lemma_dirs_view(dir.subdirs@);
        }
        collect_dir_tasks(&dir.subdirs[j], None, out);
        proof {
            assert(dv.take(j + 1).drop_last() =~= dv.take(j as int));
            assert(dv.take(j + 1).last() == dir_view(dir.subdirs@[j as int]));
        }
        j = j + 1;
    }
    proof {
        lemma_dirs_view(dir.subdirs@);
        assert(dv.take(dir.subdirs@.len() as int) =~= dv);
    }
}

/// Every task of one bootstrap run, in processing order: the walk of the
/// modules subtree, with the one-time eager pass over the initializer
/// directory's own files.
pub fn collect_tasks(modules: &EmbeddedDir, init: &EmbeddedDir) -> (r: Vec<Task>)
    ensures
        tasks_view(r@) == dir_tasks(modules@, Option::Some(init@)),
{
    let mut out: Vec<Task> = Vec::new();
    collect_dir_tasks(modules, Some(init), &mut out);
    proof {
        assert(tasks_view(Seq::<Task>::empty()) =~= Seq::<TaskView>::empty());
    }
    out
}

} // verus!
