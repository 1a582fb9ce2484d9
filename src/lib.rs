//! Settings for a Hollow Knight autosplitter: a merge engine that folds a
//! settings document into the live settings store, the store's commit
//! protocol, and the small pieces of split, timer and widget logic around it.
pub mod combo_box;
pub mod commit;
pub mod document;
pub mod hit_counter;
pub mod merge;
pub mod object;
pub mod radio_button;
pub mod settings;
pub mod splits;
pub mod store;
pub mod text;
