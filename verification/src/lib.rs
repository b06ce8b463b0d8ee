//! A batch text-transformation engine.
//!
//! A script of ordered find/replace rules, written one per line as
//! `"find" -> "replace"`, is parsed into a [`RegexCommands`] pipeline and then
//! applied rule by rule to a subject string. Pattern matching itself is
//! delegated to the `regex` crate; this crate owns the script grammar, the
//! escape handling of replacement templates, the ordered application of the
//! rules, and the final line-ending normalization.

mod line;
mod rule;
mod script;
mod text;

pub use rule::LineError;
pub use rule::RegexCommand;
pub use script::RegexCommands;
pub use script::ScriptError;
