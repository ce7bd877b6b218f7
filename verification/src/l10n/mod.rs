//! Lightweight localization.
//!
//! Strings are resolved by a key-based lookup in an embedded locale bundle, with variable
//! substitution.

pub mod bundle;
pub mod bundles;
pub mod calls;
pub mod catalog;
pub mod laws;

pub use bundle::{read_bundle, Bundle, InvalidBundle};
pub use catalog::{
    active_locale, init, init_from_env, install, locale_for_language, lookup, lookup_with_args,
    try_init, try_init_from_env, L10n,
};
