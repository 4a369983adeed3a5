//! Build configuration data: which build system drives a project, with
//! what target, features and hooks, and which runner takes the artifact
//! afterwards. These are plain values that the surrounding tooling loads
//! from configuration files and hands in.

use std::collections::HashMap;

use vstd::prelude::*;

verus! {

/// Root build configuration: which build system to use.
#[derive(Debug, Clone)]
pub struct BuildConfig {
    /// The build system configuration.
    pub system: BuildSystem,
}

/// The build system a project uses.
#[derive(Debug, Clone)]
pub enum BuildSystem {
    /// Custom shell commands build the project.
    Custom(Custom),
    /// Cargo builds the project.
    Cargo(Cargo),
}

/// Configuration for custom, non-Cargo build systems.
#[derive(Debug, Clone)]
pub struct Custom {
    /// Shell command that builds the kernel.
    pub build_cmd: String,
    /// Path to the built ELF file.
    pub elf_path: String,
    /// Whether to convert the ELF to raw binary format.
    pub to_bin: bool,
}

/// Configuration for Cargo-based builds.
#[derive(Debug, Clone, Default)]
pub struct Cargo {
    /// Environment variables set during the build.
    pub env: HashMap<String, String>,
    /// Target triple to build for.
    pub target: String,
    /// Package name to build.
    pub package: String,
    /// Cargo features to enable.
    pub features: Vec<String>,
    /// Log level feature to enable automatically.
    pub log: Option<LogLevel>,
    /// Extra Cargo configuration file path or address.
    pub extra_config: Option<String>,
    /// Additional Cargo command-line arguments.
    pub args: Vec<String>,
    /// Shell commands run before the build.
    pub pre_build_cmds: Vec<String>,
    /// Shell commands run after the build.
    pub post_build_cmds: Vec<String>,
    /// Whether to convert the ELF to raw binary format after building.
    pub to_bin: bool,
}

/// Dependency configuration for feature management.
#[derive(Debug, Clone)]
pub struct Depend {
    /// Dependency name.
    pub name: String,
    /// Features enabled for this dependency.
    pub d_features: Vec<String>,
}

/// Log level whose matching logging feature is enabled automatically.
#[derive(Debug, Clone)]
pub enum LogLevel {
    /// Trace level logging.
    Trace,
    /// Debug level logging.
    Debug,
    /// Info level logging.
    Info,
    /// Warning level logging.
    Warn,
    /// Error level logging.
    Error,
}

/// How the built artifact runs afterwards: emulated, or on hardware behind
/// the bootloader shell.
pub enum CargoRunnerKind {
    /// Run the built artifact in an emulator.
    Qemu {
        /// Optional path to the emulator configuration file.
        qemu_config: Option<String>,
        /// Whether to enable debug mode.
        debug: bool,
        /// Whether to dump the device tree blob.
        dtb_dump: bool,
    },
    /// Run the built artifact on real hardware via the bootloader.
    Uboot {
        /// Optional path to the bootloader configuration file.
        uboot_config: Option<String>,
    },
}

/// Which configuration a menu-driven editor is asked to edit.
#[derive(Debug, Clone)]
pub enum MenuConfigMode {
    /// Edit the emulator runner settings.
    Qemu,
    /// Edit the bootloader runner settings.
    Uboot,
}

} // verus!
