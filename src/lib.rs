//! A registry of typed command-line flags and the parser that applies a
//! command line to it, with the decisions of a self-rebuilding program.
use vstd::prelude::*;

pub mod flag_value;
pub mod laws;
pub mod numeric;
pub mod rebuild;
pub mod registry;

pub use flag_value::{unquote, FlagError, FlagValue};
pub use rebuild::{
    log_line, needs_rebuild, project_json, rebuild, rebuild_edition, rebuild_edition_args,
    source_paths, FileStamp, LogLevel, RustEdition,
};
pub use registry::{
    flag_bool, flag_bool_short, flag_double, flag_double_short, flag_float, flag_float_short,
    flag_long, flag_long_short, flag_string, flag_string_short, flag_ulong, flag_ulong_short,
    parse_args, Flag, FlagHandle, Registry, CAPACITY,
};

verus! {

} // verus!
