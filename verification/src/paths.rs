//! Path configuration of the surrounding tooling: where the workspace and
//! manifest live, where build outputs go, and which artifacts a build
//! produced. Paths are plain strings handed in by the caller; this core
//! never reads ambient process state.

use vstd::prelude::*;

use vstd::string::StringExecFns;

verus! {

/// Where build outputs should be placed.
#[derive(Debug, Clone, Default)]
pub struct OutputConfig {
    /// Custom build directory, overriding the default one.
    pub build_dir: Option<String>,
    /// Custom binary output directory.
    pub bin_dir: Option<String>,
}

/// The artifacts a build produced.
#[derive(Debug, Clone, Default)]
pub struct OutputArtifacts {
    /// Path to the built ELF file.
    pub elf: Option<String>,
    /// Path to the converted binary file.
    pub bin: Option<String>,
}

/// All path-related configuration grouped together.
#[derive(Debug, Clone, Default)]
pub struct PathConfig {
    /// Workspace root directory.
    pub workspace: String,
    /// Manifest directory.
    pub manifest: String,
    /// Output directory configuration.
    pub config: OutputConfig,
    /// Generated build artifacts.
    pub artifacts: OutputArtifacts,
}

impl PathConfig {
    /// The build directory: the configured one, or `target` under the
    /// manifest directory.
    pub fn build_dir(&self) -> (r: String)
        ensures
            r@ == (match self.config.build_dir {
                Some(d) => d@,
                None => self.manifest@ + "/target"@,
            }),
    {
        match &self.config.build_dir {
            Some(d) => d.clone(),
            None => {
                let mut r = self.manifest.clone();
                r.append("/target");
                r
            },
        }
    }

    /// The binary output directory, when one is configured.
    pub fn bin_dir(&self) -> (r: Option<String>)
        ensures
            match r {
                Some(d) => self.config.bin_dir matches Some(c) && d@ == c@,
                None => self.config.bin_dir is None,
            },
    {
        match &self.config.bin_dir {
            Some(d) => Some(d.clone()),
            None => None,
        }
    }
}

} // verus!
