//! Replaces `{{VAR}}` placeholders in text with values drawn from an
//! explicitly loaded store of environment variables.
//!
//! The placeholder grammar is a flat token: `{{`, then every character up to
//! the *nearest* following `}}`, which is the captured variable name. No
//! nesting or escaping is recognized. A `{{` with no later `}}` is literal
//! text.

pub mod error;
pub mod output;
pub mod resolve;
pub mod subst;
