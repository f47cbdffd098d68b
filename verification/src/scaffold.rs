//! Scaffolding: the one-time creation of the configuration directory
//! and the default configuration file when none exists. The file-system
//! work itself stays outside this crate; here stands the decision of
//! what a scaffold pass does, and the proof that a pass is idempotent
//! and never overwrites an existing file.

use vstd::prelude::*;
use crate::config::{Config, empty_config};
use crate::ser::ser_config;

verus! {

/// A model of the part of the file system a scaffold pass touches:
/// whether the configuration directory exists, and the contents of the
/// configuration file where it exists.
#[verifier::ext_equal]
pub struct ScaffoldState {
    pub dir_exists: bool,
    pub file: Option<Seq<char>>,
}

/// The text written on a fresh scaffold: the empty configuration,
/// serialized.
pub open spec fn default_doc() -> Seq<char> {
    ser_config(empty_config())
}

/// What one scaffold pass does to the file system: creates the
/// directory when missing, writes the default document when the file
/// is missing, and leaves an existing file alone.
pub open spec fn spec_scaffold(s: ScaffoldState) -> ScaffoldState {
    ScaffoldState {
        dir_exists: true,
        file: if s.file is Some {
            s.file
        } else {
            Some(default_doc())
        },
    }
}

/// Scaffolding is idempotent: a second pass changes nothing, and no
/// pass ever overwrites an existing file's contents.
pub proof fn lemma_scaffold_idempotent(s: ScaffoldState)
    ensures
        spec_scaffold(spec_scaffold(s)) == spec_scaffold(s),
        s.file is Some ==> spec_scaffold(s).file == s.file,
{
    assert(spec_scaffold(spec_scaffold(s)) =~= spec_scaffold(s));
}

/// The text of the default scaffold document.
pub fn default_document() -> (r: String)
    ensures
        r@ == default_doc(),
{
    Config::empty().to_json()
}

/// The instructions for one scaffold pass, decided from what already
/// exists: whether the directory must be created, and the default
/// document to write when the file is missing. Directory existence and
/// file existence are decided independently, so a pass with the file
/// already present writes nothing.
pub fn scaffold_plan(dir_exists: bool, file_exists: bool) -> (r: (bool, Option<String>))
    ensures
        r.0 == !dir_exists,
        (match r.1 {
            Some(doc) => !file_exists && doc@ == default_doc(),
            None => file_exists,
        }),
{
    let create_dir = !dir_exists;
    if file_exists {
        (create_dir, None)
    } else {
        (create_dir, Some(default_document()))
    }
}

} // verus!
