//! Parses command line arguments into a command name, command arguments and options, with or
//! without option configurations, and makes help text for those configurations.
//!
//! Options are POSIX and GNU like: `--long`, `--long=value`, `-s`, `-abc` (several short options
//! in one argument), `-s=value`, and `--`, after which every argument is a command argument.

pub mod strings;
pub mod keyed;
pub mod errors;
pub mod validators;
mod opt_cfg;
pub use opt_cfg::{
    OptCfg, OptCfgParam, OptCfgView, apply_param, blank_cfg, bool_text, cfg_of_params, cfgs_view,
    debug_str, defaults_view, joined_debug, opt_cfg_debug,
};
mod cmd;
pub use cmd::{Cmd, CmdView, cmd_debug, opts_debug, sub_cmd_view};
pub mod scan;
pub mod parse;
pub mod parse_with;
mod parse_for;
pub mod help;
pub mod opt_attr;
pub use parse_for::OptStore;
