//! Batch cleaner for fb2 e-book documents: removes a configured set of
//! elements (with their whole subtrees) from the XML, working on plain
//! `.fb2` files or single-entry `.fb2.zip` archives, and resolves where
//! the filtered copies go.
//!
//! Paths are modelled as byte strings throughout; the thin unverified
//! front end converts between `std::path` values and these bytes.

mod archive;
mod config;
mod errors;
mod input;
mod output;
mod paths;
mod run;
mod tags;
mod xml;

pub use archive::extract_document;
pub use archive::pack_document;
pub use config::Config;
pub use errors::CleanError;
pub use errors::ConfigError;
pub use input::Input;
pub use input::InputFile;
pub use input::InputFileType;
pub use input::get_input_file_type;
pub use input::select_input_files;
pub use output::Output;
pub use output::creation_failed;
pub use output::derived_target;
pub use output::new_dir;
pub use paths::ascii_lower;
pub use paths::bytes_eq;
pub use paths::bytes_eq_ci;
pub use paths::has_suffix_ci;
pub use paths::is_under;
pub use paths::parent_of;
pub use paths::path_join;
pub use paths::relative_to;
pub use paths::normalize_path;
pub use paths::split_components;
pub use run::Dest;
pub use run::ItemDecision;
pub use run::FailurePolicy;
pub use run::decide_item;
pub use run::depth_of;
pub use run::on_item_error;
pub use run::process_document;
pub use run::removal_sorted;
pub use tags::Tags;
pub use xml::Token;
pub use xml::TokenKind;
pub use xml::clean_xml;
