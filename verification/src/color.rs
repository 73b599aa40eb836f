//! Color decisions for terminal output.

use vstd::prelude::*;

verus! {

/// Controls ANSI color output in CLI rendering and diagnostic logs.
#[derive(Clone, Copy, Debug, PartialEq, Eq, Structural)]
pub enum ColorMode {
    /// Enable color only when output is a terminal.
    Auto,
    /// Always enable color.
    Yes,
    /// Always disable color.
    No,
}

/// Precomputed color decision state for stdout and stderr.
#[derive(Clone, Copy, Debug, PartialEq, Eq, Structural)]
pub struct RuntimeConfig {
    /// Whether to use color when writing to stdout.
    pub use_color_for_stdout: bool,
    /// Whether to use color when writing to stderr (used by logs).
    pub use_color_for_stderr: bool,
}

/// Whether output goes in color: as the terminal decides in `auto` mode,
/// always with `yes`, never with `no`.
pub open spec fn color_enabled(color_mode: ColorMode, is_terminal: bool) -> bool {
    match color_mode {
        ColorMode::Auto => is_terminal,
        ColorMode::Yes => true,
        ColorMode::No => false,
    }
}

/// Whether output goes in color.
pub fn should_use_color(color_mode: ColorMode, is_terminal: bool) -> (res: bool)
    ensures
        res == color_enabled(color_mode, is_terminal),
{
    match color_mode {
        ColorMode::Auto => is_terminal,
        ColorMode::Yes => true,
        ColorMode::No => false,
    }
}

impl RuntimeConfig {
    /// The color decisions for stdout and stderr, from the color mode and
    /// whether each stream is a terminal.
    pub fn new(color_mode: ColorMode, stdout_is_terminal: bool, stderr_is_terminal: bool) -> (res:
        Self)
        ensures
            res.use_color_for_stdout == color_enabled(color_mode, stdout_is_terminal),
            res.use_color_for_stderr == color_enabled(color_mode, stderr_is_terminal),
    {
        RuntimeConfig {
            use_color_for_stdout: should_use_color(color_mode, stdout_is_terminal),
            use_color_for_stderr: should_use_color(color_mode, stderr_is_terminal),
        }
    }
}

} // verus!
