//! The bootstrap itself: preparing each task into the name and decoded
//! source the engine needs, settling what the engine reports, and the run
//! against the model host, which pins down the whole procedure's effect.
use vstd::prelude::*;
use vstd::utf8::valid_utf8;
use vstd::utf8::decode_utf8;
use crate::BootstrapError;
use crate::specifier::is_source_path;
use crate::specifier::ends_with_source_suffix;
use crate::specifier::spec_nested_specifier;
use crate::specifier::spec_global_specifier;
use crate::specifier::nested_specifier;
use crate::specifier::global_specifier;
use crate::tree::EmbeddedDir;
use crate::walk::Task;
use crate::walk::TaskView;
use crate::walk::Tier;
use crate::walk::tasks_view;
use crate::walk::dir_tasks;
use crate::walk::collect_tasks;
use crate::loader::ModuleRecord;
use crate::loader::RecordView;
use crate::loader::ModelHost;
use crate::loader::HostView;

verus! {

/// A prepared unit of engine work: the name it will run under and the
/// decoded source text.
#[derive(Debug)]
pub struct Action {
    pub tier: Tier,
    pub name: String,
    pub source: String,
}

/// Relies on std's String::from_utf8: it returns Ok exactly when the bytes
/// are valid UTF-8, and the string is then their decoding.
#[verifier::external_body]
fn decode_source(bytes: &Vec<u8>) -> (r: Option<String>)
    ensures
        r is Some <==> valid_utf8(bytes@),
        r is Some ==> r->Some_0@ == decode_utf8(bytes@),
{
    match String::from_utf8(bytes.clone()) {
        Ok(s) => Some(s),
        Err(_) => None,
    }
}

/// What preparing a task yields: the name and the decoded source on
/// success, or the first failure in the order the steps run — the name is
/// derived before the contents are decoded.
pub open spec fn spec_prepare(t: TaskView) -> Result<(Seq<char>, Seq<char>), BootstrapError> {
    match t.tier {
        Tier::Nested => if !is_source_path(t.file.path) {
            Err(BootstrapError::UnsupportedPath)
        } else if !valid_utf8(t.file.contents) {
            Err(BootstrapError::NotUtf8)
        } else {
            Ok((spec_nested_specifier(t.file.path), decode_utf8(t.file.contents)))
        },
        Tier::Global => if !ends_with_source_suffix(t.file.path) {
            Err(BootstrapError::MissingSuffix)
        } else if !valid_utf8(t.file.contents) {
            Err(BootstrapError::NotUtf8)
        } else {
            Ok((spec_global_specifier(t.file.path), decode_utf8(t.file.contents)))
        },
    }
}

/// Turns one task into the engine work it asks for: derives the name the
/// task's tier prescribes, then decodes the contents as UTF-8 text.
pub fn prepare(t: &Task) -> (r: Result<Action, BootstrapError>)
    ensures
        r is Ok <==> spec_prepare(t@) is Ok,
        r is Ok ==> {
            &&& r->Ok_0.tier == t.tier
            &&& r->Ok_0.name@ == spec_prepare(t@)->Ok_0.0
            &&& r->Ok_0.source@ == spec_prepare(t@)->Ok_0.1
        },
        r is Err ==> r->Err_0 == spec_prepare(t@)->Err_0,
{
    let name = match t.tier {
        Tier::Nested => match nested_specifier(t.file.path.as_str()) {
            Ok(n) => n,
            Err(e) => {
                return Err(e);
            },
        },
        Tier::Global => match global_specifier(t.file.path.as_str()) {
            Ok(n) => n,
            Err(e) => {
                return Err(e);
            },
        },
    };
    let source = match decode_source(&t.file.contents) {
        Some(s) => s,
        None => {
            return Err(BootstrapError::NotUtf8);
        },
    };
    Ok(Action { tier: t.tier, name, source })
}

/// What the engine reported for a compilation request.
#[derive(Clone, Copy, Debug, PartialEq, Eq, Structural)]
pub enum CompileOutcome {
    Accepted,
    Rejected,
}

/// What came of asking the loader to register a compiled module.
#[derive(Clone, Copy, Debug, PartialEq, Eq, Structural)]
pub enum RegisterOutcome {
    Accepted,
    Refused,
    NoLoader,
}

/// What came of eagerly compiling and evaluating an initializer script.
#[derive(Clone, Copy, Debug, PartialEq, Eq, Structural)]
pub enum EvalOutcome {
    Completed,
    Failed,
}

/// The bootstrap's verdict on a compilation report.
pub fn settle_compile(o: CompileOutcome) -> (r: Result<(), BootstrapError>)
    ensures
        r is Ok <==> o is Accepted,
        r is Err ==> r->Err_0 == BootstrapError::CompileFailed,
{
    match o {
        CompileOutcome::Accepted => Ok(()),
        CompileOutcome::Rejected => Err(BootstrapError::CompileFailed),
    }
}

/// The bootstrap's verdict on a registration report: a refusal and a
/// missing loader abort the walk under their own causes.
pub fn settle_register(o: RegisterOutcome) -> (r: Result<(), BootstrapError>)
    ensures
        r is Ok <==> o is Accepted,
        o is Refused ==> r == Result::<(), BootstrapError>::Err(BootstrapError::RegistrationRefused),
        o is NoLoader ==> r == Result::<(), BootstrapError>::Err(BootstrapError::LoaderAbsent),
{
    match o {
        RegisterOutcome::Accepted => Ok(()),
        RegisterOutcome::Refused => Err(BootstrapError::RegistrationRefused),
        RegisterOutcome::NoLoader => Err(BootstrapError::LoaderAbsent),
    }
}

/// The bootstrap's verdict on an eager evaluation report: every failure of
/// that path collapses into the single missing-loader cause, whatever
/// actually went wrong inside the engine.
pub fn settle_eval(o: EvalOutcome) -> (r: Result<(), BootstrapError>)
    ensures
        r is Ok <==> o is Completed,
        r is Err ==> r->Err_0 == BootstrapError::LoaderAbsent,
{
    match o {
        EvalOutcome::Completed => Ok(()),
        EvalOutcome::Failed => Err(BootstrapError::LoaderAbsent),
    }
}

/// One task's effect on the host, against an engine that accepts every
/// decoded source: a nested-tier task registers its module — failing when
/// no loader is attached — and a global-tier task evaluates its script.
/// A failing task leaves the host as it found it.
pub open spec fn spec_apply(h: HostView, t: TaskView) -> Result<HostView, BootstrapError> {
    match spec_prepare(t) {
        Err(e) => Err(e),
        Ok(prepared) => match t.tier {
            Tier::Nested => match h.loader {
                None => Err(BootstrapError::LoaderAbsent),
                Some(recs) => Ok(
                    HostView {
                        loader: Some(
                            recs.push(RecordView { specifier: prepared.0, source: prepared.1 }),
                        ),
                        evaluated: h.evaluated,
                    },
                ),
            },
            Tier::Global => Ok(
                HostView {
                    loader: h.loader,
                    evaluated: h.evaluated.push(
                        RecordView { specifier: prepared.0, source: prepared.1 },
                    ),
                },
            ),
        },
    }
}

/// The whole run over a task list: tasks are processed in order; the first
/// failure aborts the run and keeps every effect of the tasks before it —
/// the bootstrap is not transactional and never rolls back.
pub open spec fn spec_run(tasks: Seq<TaskView>, h: HostView) -> (Result<(), BootstrapError>, HostView)
    decreases tasks.len(),
{
    if tasks.len() == 0 {
        (Ok(()), h)
    } else {
        match spec_apply(h, tasks[0]) {
            Ok(h2) => spec_run(tasks.drop_first(), h2),
            Err(e) => (Err(e), h),
        }
    }
}

/// Runs the bootstrap against the model host: walks the modules subtree and
/// the initializer directory, registers every nested-tier source file with
/// the loader and evaluates every initializer source, aborting on the first
/// failure with all earlier effects kept.
pub fn run_model(modules: &EmbeddedDir, init: &EmbeddedDir, host: &mut ModelHost) -> (r: Result<
    (),
    BootstrapError,
>)
    ensures
        r == spec_run(dir_tasks(modules@, Some(init@)), old(host)@).0,
        final(host)@ == spec_run(dir_tasks(modules@, Some(init@)), old(host)@).1,
{
    let tasks = collect_tasks(modules, init);
    let ghost tv = tasks_view(tasks@);
    let ghost h0 = old(host)@;
    proof {
        assert(tv.skip(0) =~= tv);
    }
    let mut i: usize = 0;
    while i < tasks.len()
        invariant
            i <= tasks@.len(),
            tv == tasks_view(tasks@),
            tv == dir_tasks(modules@, Some(init@)),
            h0 == old(host)@,
            spec_run(tv, h0) == spec_run(tv.skip(i as int), host@),
        decreases tasks@.len() - i,
    {
        let ghost hcur = host@;
        let t = &tasks[i];
        proof {
            assert(tv.skip(i as int)[0] == t@);
            assert(tv.skip(i as int).drop_first() =~= tv.skip(i + 1));
        }
        let action = match prepare(t) {
            Ok(a) => a,
            Err(e) => {
                proof {
                    assert(spec_apply(hcur, t@) == Result::<HostView, BootstrapError>::Err(e));
                    assert(spec_run(tv.skip(i as int), hcur) == (
                        Result::<(), BootstrapError>::Err(e),
                        hcur,
                    ));
                }
                return Err(e);
            },
        };
        let ghost nm = action.name@;
        let ghost src = action.source@;
        let rec = ModuleRecord { specifier: action.name, source: action.source };
        proof {
            assert(rec@ == RecordView { specifier: nm, source: src });
        }
        match action.tier {
            Tier::Nested => {
                match &mut host.loader {
                    Some(l) => {
                        l.register(rec);
                    },
                    None => {
                        proof {
                            assert(spec_apply(hcur, t@) == Result::<HostView, BootstrapError>::Err(
                                BootstrapError::LoaderAbsent,
                            ));
                            assert(spec_run(tv.skip(i as int), hcur) == (
                                Result::<(), BootstrapError>::Err(BootstrapError::LoaderAbsent),
                                hcur,
                            ));
                        }
                        return Err(BootstrapError::LoaderAbsent);
                    },
                }
                proof {
                    assert(host@ =~~= spec_apply(hcur, t@)->Ok_0);
                }
            },
            Tier::Global => {
                let ghost evs = host.evaluated@;
                host.evaluated.push(rec);
                proof {
                    assert(crate::loader::records_view(host.evaluated@) =~= crate::loader::records_view(
                        evs,
                    ).push(RecordView { specifier: nm, source: src }));
                    assert(host@ =~~= spec_apply(hcur, t@)->Ok_0);
                }
            },
        }
        proof {
            assert(spec_run(tv.skip(i as int), hcur) == spec_run(tv.skip(i + 1), host@));
        }
        i = i + 1;
    }
    proof {
        assert(tv.skip(tv.len() as int) =~= Seq::<TaskView>::empty());
    }
    Ok(())
}

/// The bootstrap's entry point against the model host: true when every
/// qualifying file was processed, false when the walk aborted — the host
/// then stays in whatever partially initialized state the abort found.
pub fn define(modules: &EmbeddedDir, init: &EmbeddedDir, host: &mut ModelHost) -> (ok: bool)
    ensures
        ok == (spec_run(dir_tasks(modules@, Some(init@)), old(host)@).0 is Ok),
        final(host)@ == spec_run(dir_tasks(modules@, Some(init@)), old(host)@).1,
{
    match run_model(modules, init, host) {
        Ok(_) => true,
        Err(_) => false,
    }
}

} // verus!
