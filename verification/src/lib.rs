//! Assembly of Miden projects into packages, and a local registry of the packages.

pub mod action_laws;
pub mod assembler;
pub mod assembly_laws;
pub mod assembly_model;
pub mod assembly_records;
pub mod assembly_runs;
pub mod cli;
pub mod closure;
pub mod codec;
pub mod command_laws;
pub mod files;
pub mod format_laws;
pub mod graph;
pub mod hash_laws;
pub mod index;
pub mod index_laws;
pub mod linking;
pub mod linking_laws;
pub mod message_laws;
pub mod package;
pub mod package_format;
pub mod path_laws;
pub mod project;
pub mod project_laws;
pub mod provenance;
pub mod provenance_laws;
pub mod registry;
pub mod registry_laws;
pub mod sorting;
pub mod source_hash;
pub mod source_laws;
pub mod sources;
pub mod text;
pub mod text_laws;
pub mod version;
pub mod version_laws;
pub mod word;
