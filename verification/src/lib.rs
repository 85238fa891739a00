//! Bootstrap of JavaScript modules whose sources ship embedded in the host
//! program. A walk over the embedded tree separates two tiers: files under
//! the modules subtree are compiled and registered with the engine's module
//! loader as importable modules, under `"jsmodule_"` plus their file stem;
//! files directly inside the initializer directory are compiled and
//! evaluated eagerly, once, under their path with the extension stripped and
//! `/` turned into `:`. The walk runs once per context, in traversal order,
//! and aborts on the first failure without rolling anything back.
//!
//! The tree model, the specifier derivations, the walk, and the bootstrap's
//! decisions are verified; the engine itself is driven from outside through
//! the prepared actions and the outcome types of [`bootstrap`].

use vstd::prelude::*;

pub mod specifier;
pub mod tree;
pub mod walk;
pub mod loader;
pub mod bootstrap;
pub mod laws;

verus! {

/// The ways the bootstrap of the embedded script modules can fail.
#[derive(Clone, Copy, Debug, PartialEq, Eq, Structural)]
pub enum BootstrapError {
    /// The path has no file name from which a specifier could be derived.
    UnsupportedPath,
    /// An initializer path does not end in the recognized source extension.
    MissingSuffix,
    /// The file's contents are not valid UTF-8 text.
    NotUtf8,
    /// The engine rejected the source during compilation.
    CompileFailed,
    /// The module loader refused to register a compiled module.
    RegistrationRefused,
    /// No module loader is attached to the context; also covers every
    /// failure of an eager evaluation, which reports this single cause.
    LoaderAbsent,
}

} // verus!
