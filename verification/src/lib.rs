//! Removal of comments from source text, driven by a per-language table of
//! comment syntax rules.
//!
//! The core is a single-pass streaming scanner: it classifies each incoming
//! character as code, string-literal content, or comment content (possibly
//! nested), and emits only the characters that survive comment removal.
//! String literals are left intact even when they contain substrings that
//! look like comment delimiters.

mod buffer;
mod laws;
mod model;
mod rules;
mod scanner;

pub use buffer::Buf;
pub use buffer::starts_with;
pub use laws::lemma_strip_identity;
pub use laws::occurs;
pub use model::ModeSpec;
pub use model::backtick_triple;
pub use model::bad_close_at;
pub use model::cons_opt;
pub use model::find_open_from;
pub use model::has_bad_close;
pub use model::lemma_find_open_from;
pub use model::mode_rank;
pub use model::mode_wf;
pub use model::prepend_opt;
pub use model::scan;
pub use rules::Comment;
pub use rules::RuleSpec;
pub use rules::Type;
pub use rules::config_for;
pub use rules::lang_config;
pub use rules::max_pat_len;
pub use rules::rules_view;
pub use rules::valid_config;
pub use rules::valid_rule;
pub use scanner::IntoWithoutComments;
pub use scanner::Mode;
pub use scanner::strip;
pub use scanner::StripError;
pub use scanner::TriOpt;
pub use scanner::WithoutComments;
