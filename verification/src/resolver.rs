//! Module paths and the interface of a module resolver.
//!
//! A resolver locates and reads the source files of an imported module. That
//! work is input/output and lives with the embedding program; only the
//! interface is given here, together with the path and file bookkeeping
//! types the compiler core shares with it.

use vstd::prelude::*;

use crate::error::ErrorHandler;
use vstd::string::StringExecFns;

verus! {

/// A unique id for a file.
///
/// Internally the compiler uses a file id of 0 when a `FileId` is needed and
/// one cannot be obtained. In theory this should never leak; as bugs happen,
/// a resolver should avoid handing out a file id of 0.
#[derive(Ord, PartialOrd, Eq, PartialEq, Hash, Debug, Copy, Clone, Structural)]
pub struct FileId(pub u16);

/// A file can contain either Zephyr code or Zephyr assembly.
#[derive(Debug, Copy, Clone, Eq, PartialEq, Structural)]
pub enum FileKind {
    Zephyr,
    Asm,
}

/// A module is either standalone (inside a single file) or standard
/// (occupying a whole directory).
#[derive(Debug, Copy, Clone, Eq, PartialEq, Structural)]
pub enum ModuleKind {
    Standalone,
    Standard,
}

/// A file prepared to be passed to the AST parser.
pub struct PreparedFile {
    pub code: String,
    pub f_id: FileId,
    pub file_name: String,
    pub kind: FileKind,
}

/// A package whose location is known to the compiler itself.
#[derive(Debug, Copy, Clone, Eq, PartialEq, Structural)]
pub enum KnownPackage {
    Core,
}

impl KnownPackage {
    /// The package's name.
    pub open spec fn name_spec(&self) -> Seq<char> {
        "core"@
    }

    /// The package's name.
    pub fn as_str(&self) -> (r: &'static str)
        ensures
            r@ == self.name_spec(),
    {
        match self {
            KnownPackage::Core => "core",
        }
    }
}

/// A path to a module from the package root.
#[derive(Clone, Eq, PartialEq, Hash)]
pub struct ModulePath {
    pub root: String,
    pub path: Vec<String>,
}

impl ModulePath {
    /// The path that names the package root itself.
    pub fn from_root(root: String) -> (r: Self)
        ensures
            r.root == root,
            r.path@ == Seq::<String>::empty(),
    {
        let r = Self { root, path: Vec::new() };
        proof {
            assert(r.path@ =~= Seq::<String>::empty());
        }
        r
    }

    /// The root path of a package known to the compiler.
    pub fn from_known_package(pkg: KnownPackage) -> (r: Self)
        ensures
            r.root@ == pkg.name_spec(),
            r.path@ == Seq::<String>::empty(),
    {
        let root = String::from_str(pkg.as_str());
        let r = Self { root, path: Vec::new() };
        proof {
            assert(r.path@ =~= Seq::<String>::empty());
        }
        r
    }

    /// The name under which the module is visible: its last path segment, or
    /// the root for the package root itself.
    pub fn alias(&self) -> (r: &str)
        ensures
            self.path@.len() > 0 ==> r@ == self.path@.last()@,
            self.path@.len() == 0 ==> r@ == self.root@,
    {
        let n = self.path.len();
        if n > 0 {
            self.path[n - 1].as_str()
        } else {
            self.root.as_str()
        }
    }
}

/// A module resolver, used to locate and retrieve code. The embedding
/// program implements it; the compiler core only calls through it.
pub trait Resolver {
    /// Given a module path, returns the list of files of that module and the
    /// module's kind, or reports to the error sink and returns nothing.
    fn resolve_module(&self, module: &ModulePath, err: &mut ErrorHandler) -> Result<
        (Vec<PreparedFile>, ModuleKind),
        (),
    >;
}

} // verus!
