//! Localized messages and the bounded history lookup of a command-line client.

pub mod history;
pub mod l10n;
pub mod text;
