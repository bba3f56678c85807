//! The command surface: the plain values each subcommand carries and
//! the default directories the cleaning commands fall back to. The
//! thin binary parses arguments into these types and dispatches.

use vstd::prelude::*;

use vstd::string::StringExecFns;

verus! {

/// Arguments of the snapshot command.
pub struct Dump {
    /// Enumerate tracked files through the version-control listing
    /// instead of a full filesystem walk.
    pub gitignore: bool,
}

/// Arguments of the compiled-output cleaning command.
pub struct CargoCleanTargetDir {
    /// Output directory to prune; the default is `target` under the
    /// working directory.
    pub target_dir: Option<String>,
}

/// Arguments of the registry cleaning command.
pub struct CargoCleanRegistry {
    /// Registry directory to prune; the default is the platform's
    /// standard registry path.
    pub registry_dir: Option<String>,
}

/// The subcommands; no subcommand acts as `Restore`.
pub enum Commands {
    Dump(Dump),
    Restore,
    CargoCleanTargetDir(CargoCleanTargetDir),
    CargoCleanRegistry(CargoCleanRegistry),
}

pub open spec fn target_suffix() -> Seq<char> {
    seq!['/', 't', 'a', 'r', 'g', 'e', 't']
}

/// The output directory pruned when none is named: `<root>/target`.
pub fn default_target_dir(root: &String) -> (r: String)
    ensures
        r@ == root@ + target_suffix(),
{
    let r = root.clone().concat("/target");
    proof {
        reveal_strlit("/target");
        assert(r@ =~= root@ + target_suffix());
    }
    r
}

pub open spec fn default_registry_chars() -> Seq<char> {
    seq![
        '/', 'r', 'o', 'o', 't', '/', '.', 'c', 'a', 'r', 'g', 'o', '/', 'r', 'e', 'g', 'i', 's',
        't', 'r', 'y',
    ]
}

/// The registry directory pruned when none is named.
pub fn default_registry_dir() -> (r: String)
    ensures
        r@ == default_registry_chars(),
{
    let r: String = <String as StringExecFns>::from_str("/root/.cargo/registry");
    proof {
        reveal_strlit("/root/.cargo/registry");
        assert(r@ =~= default_registry_chars());
    }
    r
}

} // verus!
