//! Verified reader for Amazon KFX (`CONT`) containers.
pub mod ion;
pub mod value;
pub mod text;
pub mod error;
pub mod container;
pub mod strset;
pub mod symbols;
pub mod native;
pub mod media;
pub mod audit_path;
pub mod links;
pub mod heading;
pub mod content;
pub mod fragment;
pub mod decode;
pub mod nav;
pub mod inspect;
pub mod counts;
pub mod digest;
pub mod evidence;
pub mod resource_audit;
pub mod external_audit;
pub mod placement;
pub mod fidelity;
pub mod reading;
pub mod text_digest;
pub mod text_events;
pub mod style;
pub mod nav_index;
pub mod ruby;
pub mod mathml;
pub mod source_strings;
pub mod ion_audit;
pub mod text_source;
pub mod raw_images;
pub mod inline_runs;
pub mod content_walk;
pub mod text_audit;
