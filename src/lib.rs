//! Packaging of multi-document Kubernetes-style manifests into size-bounded,
//! categorized bundle files, with a derived runtime mount configuration.
//!
//! A tool's manifest text is split into cleaned documents (`decompose`), each
//! read and staged as one resource file (`manifest`); staged files are
//! classified (`category`), put in name order (`order`) and packed into
//! shards (`packer`); the packed shards give the runtime configuration
//! (`runtime`). `template` and `hooks` hold what is proved of the envelope and
//! of the hook filter; `config` and `tools` cover tool descriptors and the
//! text handed to outside commands.

pub mod text;
pub mod decompose;
pub mod manifest;
pub mod category;
pub mod order;
pub mod packer;
pub mod template;
pub mod hooks;
pub mod runtime;
pub mod config;
pub mod tools;
