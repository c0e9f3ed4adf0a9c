//! Command-line surface of the compiler.
//!
//! Only the data carried by the commands lives here; argument parsing, the
//! terminal, and the build tool driving are outside the library.

use vstd::prelude::*;

verus! {

/// Arguments of the clean command.
#[derive(Debug)]
pub struct CleanArgs {
    /// Also remove the compiler's manifests, not only the build artifacts.
    pub remove_dojo_manifests: bool,
    /// Clean every profile instead of the current one.
    pub all_profiles: bool,
}

/// The subcommands of the compiler.
#[derive(Debug)]
pub enum Commands {
    /// Build the world and generate the deployment artifacts.
    Build,
    /// Remove generated artifacts and manifests.
    Clean(CleanArgs),
    /// Developer mode: watch, rebuild and migrate.
    Dev,
    /// Run the project's tests.
    Test,
}

impl Commands {
    /// The display name of the command.
    pub fn name(&self) -> (r: String)
        ensures
            match self {
                Commands::Build => r@ == "Build"@,
                Commands::Clean(_) => r@ == "Clean"@,
                Commands::Dev => r@ == "Dev"@,
                Commands::Test => r@ == "Test"@,
            },
    {
        match self {
            Commands::Build => String::from_str("Build"),
            Commands::Clean(_) => String::from_str("Clean"),
            Commands::Dev => String::from_str("Dev"),
            Commands::Test => String::from_str("Test"),
        }
    }
}

} // verus!
