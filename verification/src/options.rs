//! Global options: where the history and configuration files live, and
//! the display settings read from the configuration file.

use vstd::prelude::*;

verus! {

/// Used to pass around global options.
pub struct Options {
    /// Path of the history file.
    pub history_path: Option<String>,
    /// Path of the configuration file.
    pub config_path: Option<String>,
    /// The parsed configuration, when one was read.
    pub config: Option<Config>,
}

impl Options {
    /// Options with no paths and no configuration.
    pub fn new() -> (r: Options)
        ensures
            r.history_path is None,
            r.config_path is None,
            r.config is None,
    {
        Options { history_path: None, config_path: None, config: None }
    }
}

/// The display settings of the configuration file.
#[derive(Clone, Copy)]
pub struct Config {
    /// Spacing factor for the individual cells.
    pub cells_h_space: usize,
    /// Whether cells are drawn with Unicode glyphs.
    pub use_unicode: bool,
    /// Whether cells are drawn in color.
    pub use_color: bool,
}

/// Default spacing factor for the individual cells.
fn default_cells_h_space() -> (r: usize)
    ensures
        r == 2,
{
    2
}

/// By default cells are drawn with Unicode glyphs.
fn default_use_unicode() -> (r: bool)
    ensures
        r,
{
    true
}

/// By default cells are drawn in color.
fn default_use_color() -> (r: bool)
    ensures
        r,
{
    true
}

impl Default for Config {
    /// The configuration used when the file sets nothing.
    fn default() -> (r: Config)
        ensures
            r.cells_h_space == 2,
            r.use_unicode,
            r.use_color,
    {
        Config {
            cells_h_space: default_cells_h_space(),
            use_unicode: default_use_unicode(),
            use_color: default_use_color(),
        }
    }
}

} // verus!
