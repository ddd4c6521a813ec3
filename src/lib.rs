//! Shell tab-completion over a YAML-like document tree.
//!
//! A document is walked along a partly typed path (`GPIO.p`, `array[`, `level1.`) to
//! find the valid next tokens. Two dialects of array indices are supported (`[n]` and
//! `@n`), fields are inherited along `parent` pointers, and terminal fields mark a hash
//! as a leaf.

pub mod strings;
pub mod value;
pub mod arrayparser;
pub mod yaml_path;
pub mod rust_common;
pub mod get_metadata;
pub mod yaml_descender;
pub mod strwriter;
pub mod write_completions;
pub mod yaml_doccer;
pub mod find_config_file;
pub mod laws;
