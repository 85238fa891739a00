//! The model of the engine-side state the bootstrap mutates: the module
//! loader's append-only registry, which may be absent, and the log of
//! initializer scripts already evaluated.
use vstd::prelude::*;

verus! {

/// A module as the loader keeps it: the specifier it was registered under
/// and its source text.
#[derive(Debug)]
pub struct ModuleRecord {
    pub specifier: String,
    pub source: String,
}

/// What a `ModuleRecord` is mathematically.
pub ghost struct RecordView {
    pub specifier: Seq<char>,
    pub source: Seq<char>,
}

impl View for ModuleRecord {
    type V = RecordView;

    open spec fn view(&self) -> RecordView {
        RecordView { specifier: self.specifier@, source: self.source@ }
    }
}

pub open spec fn records_view(rs: Seq<ModuleRecord>) -> Seq<RecordView> {
    rs.map_values(|r: ModuleRecord| r@)
}

pub proof fn lemma_records_view_push(rs: Seq<ModuleRecord>, r: ModuleRecord)
    ensures
        records_view(rs.push(r)) == records_view(rs).push(r@),
{
    assert(records_view(rs.push(r)) =~= records_view(rs).push(r@));
}

/// The model of the engine-side module loader: a registry of module records
/// that registration only ever appends to, never removes from or replaces.
/// Registering a specifier twice keeps both entries; `resolve` returns the
/// latest one, so a later duplicate silently shadows an earlier one.
#[derive(Debug)]
pub struct ModelLoader {
    pub records: Vec<ModuleRecord>,
}

impl ModelLoader {
    /// An empty registry.
    pub fn new() -> (r: ModelLoader)
        ensures
            records_view(r.records@) == Seq::<RecordView>::empty(),
    {
        let r = ModelLoader { records: Vec::new() };
        proof {
            assert(records_view(r.records@) =~= Seq::<RecordView>::empty());
        }
        r
    }

    /// Appends one record; whatever is registered stays registered.
    pub fn register(&mut self, rec: ModuleRecord)
        ensures
            records_view(final(self).records@) == records_view(old(self).records@).push(rec@),
    {
        proof {
            lemma_records_view_push(self.records@, rec);
        }
        self.records.push(rec);
    }

    /// Index of the record a specifier resolves to: the latest registration
    /// under that specifier, or nothing when none exists.
    pub fn resolve(&self, specifier: &String) -> (r: Option<usize>)
        ensures
            match r {
                Some(i) => {
                    &&& i < self.records@.len()
                    &&& self.records@[i as int]@.specifier == specifier@
                    &&& forall|j: int|
                        i < j < self.records@.len() ==> self.records@[j]@.specifier != specifier@
                },
                None => forall|j: int|
                    0 <= j < self.records@.len() ==> self.records@[j]@.specifier != specifier@,
            },
    {
        let n = self.records.len();
        let mut i = n;
        while i > 0
            invariant
                i <= n,
                n == self.records@.len(),
                forall|j: int| i <= j < self.records@.len() ==> self.records@[j]@.specifier
                    != specifier@,
            decreases i,
        {
            if self.records[i - 1].specifier.eq(specifier) {
                return Some(i - 1);
            }
            i = i - 1;
        }
        None
    }
}

/// The engine-side state one bootstrap run drives: the optional module
/// loader — absent when no loader was attached to the context — and the log
/// of initializer scripts evaluated so far, in evaluation order.
#[derive(Debug)]
pub struct ModelHost {
    pub loader: Option<ModelLoader>,
    pub evaluated: Vec<ModuleRecord>,
}

/// What a `ModelHost` is mathematically.
#[verifier::ext_equal]
pub ghost struct HostView {
    pub loader: Option<Seq<RecordView>>,
    pub evaluated: Seq<RecordView>,
}

impl View for ModelHost {
    type V = HostView;

    open spec fn view(&self) -> HostView {
        HostView {
            loader: match self.loader {
                Some(l) => Some(records_view(l.records@)),
                None => None,
            },
            evaluated: records_view(self.evaluated@),
        }
    }
}

impl ModelHost {
    /// A host with an attached, empty loader and nothing evaluated yet.
    pub fn with_loader() -> (r: ModelHost)
        ensures
            r@.loader == Some(Seq::<RecordView>::empty()),
            r@.evaluated == Seq::<RecordView>::empty(),
    {
        let r = ModelHost { loader: Some(ModelLoader::new()), evaluated: Vec::new() };
        proof {
            assert(records_view(r.evaluated@) =~= Seq::<RecordView>::empty());
        }
        r
    }

    /// A host with no loader attached and nothing evaluated yet.
    pub fn without_loader() -> (r: ModelHost)
        ensures
            r@.loader is None,
            r@.evaluated == Seq::<RecordView>::empty(),
    {
        let r = ModelHost { loader: None, evaluated: Vec::new() };
        proof {
            assert(records_view(r.evaluated@) =~= Seq::<RecordView>::empty());
        }
        r
    }
}

} // verus!
