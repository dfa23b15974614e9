//! Intent matching for a voice and text command framework.
//!
//! An [`engine::IntentEngine`] holds the declared intents and the table of
//! shared default slots. A [`recognizer::Recognizer`] matches one input text
//! against every pattern of every intent and returns, for each match, the
//! name of the intent and the slots that the match extracted.
//!
//! - [`slot`]: slot definitions and the table of default slots.
//! - [`intent`]: intents and the declarations they are loaded from.
//! - [`engine`]: loading of intents; [`strict`]: loading with objections.
//! - [`pattern`]: the compiler from literal patterns to regular expressions.
//! - [`slot_extractor`]: matching of one pattern and validation of its slots.
//! - [`recognizer`]: matching of all patterns of all intents.
//! - [`matcher`]: the boundary to the `regex` crate.
//! - [`text`]: strings as sequences of characters.
//! - [`response`], [`library`], [`skills`], [`cli`]: what the host around the
//!   matcher decides without input or output.
//!
//! Every function in this crate is verified with Verus, but for the few that
//! call the `regex` crate or `std` and say so. The regular expression engine
//! itself is not verified; what the proofs assume of it is stated in
//! [`matcher`].

pub mod cli;
pub mod engine;
pub mod intent;
pub mod library;
pub mod matcher;
pub mod pattern;
pub mod recognizer;
pub mod response;
pub mod skills;
pub mod slot;
pub mod slot_extractor;
pub mod strict;
pub mod text;
