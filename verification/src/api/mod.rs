//! What the HTTP border of the service answers.

pub mod error;
