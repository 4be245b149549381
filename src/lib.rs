//! Interactive location launcher: path-stream normalisation, location
//! resolution and the protocol spoken with the interactive filter.

pub mod command;
pub mod config;
pub mod filter;
pub mod normalize;
pub mod opener;
pub mod resolve;
pub mod text;

pub use command::{
    candidate_source, enumerator_args, filter_args, history_path, location_to_id, menu_args, menu_history_path,
    normalize_arg, program_name, CandidateSource,
};
pub use config::{Config, Location, LocationMode};
pub use filter::{
    decode_line, decode_selection, next_step, reconcile, FilterError, OpenAction, OutputDecoder, SessionStep,
};
pub use resolve::{matches_folded, menu_choice, menu_line, menu_lines, resolve, MenuError, Resolution};
pub use opener::opener_target;
pub use normalize::{normalize_record, normalize_stream, split_records, Separator};
pub use text::{join_path, PathSep};
