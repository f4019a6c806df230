//! Rye's small utilities: planning a safe tarball extraction, sealing
//! secrets, rendering requirements, `${VAR}` template expansion and output
//! verbosity.
use vstd::prelude::*;

mod text;
pub mod paths;
pub mod archive;
pub mod auth;
pub mod template;
pub mod requirement;
pub mod output;

pub use archive::{decompress_archive, ExtractError};
pub use output::{CommandOutput, QuietExit};
pub use paths::{plan_entry, sanitize_entry_path, EntryPlan};
pub use requirement::{format_requirement, render_requirement, RequirementText, VersionOrUrlText};
pub use template::{env_var_names, expand_env_vars, substitute_env_vars};

verus! {

} // verus!
