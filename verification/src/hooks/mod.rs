pub mod installer;

pub use installer::{hook_files, verify_hooks_installed, HookSet};
