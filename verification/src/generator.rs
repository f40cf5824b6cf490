//! The shells a prompt script is generated for.
use vstd::prelude::*;

use crate::config::Config;

verus! {

/// A shell that prompt scripts are generated for.
#[derive(Debug, Clone, Copy, PartialEq, Eq, Structural)]
pub enum Shell {
    Zsh,
    Nu,
    Pwsh,
}

impl Shell {
    /// Where the script for this shell is written when no output path is given.
    pub open spec fn spec_default_output(self) -> Seq<char> {
        match self {
            Shell::Zsh => "output/prompt.zsh"@,
            Shell::Nu => "output/prompt.nu"@,
            Shell::Pwsh => "output/prompt.ps1"@,
        }
    }

    /// Where the script for this shell is written when no output path is given.
    pub fn default_output(self) -> (r: &'static str)
        ensures
            r@ == self.spec_default_output(),
    {
        match self {
            Shell::Zsh => "output/prompt.zsh",
            Shell::Nu => "output/prompt.nu",
            Shell::Pwsh => "output/prompt.ps1",
        }
    }
}

/// Generates prompt scripts from a configuration.
pub struct Generator<'a> {
    config: &'a Config,
}

impl<'a> Generator<'a> {
    /// The configuration scripts are generated from.
    pub closed spec fn spec_config(self) -> Config {
        *self.config
    }

    /// A generator for `config`.
    pub fn new(config: &'a Config) -> (g: Self)
        ensures
            g.spec_config() == *config,
    {
        Self { config }
    }
}

} // verus!
