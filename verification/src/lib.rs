//! Voice moderation for group voice chat: per-speaker audio buffering,
//! streaming recognition bookkeeping, fuzzy trigger-phrase matching and the
//! decisions that turn recognised speech into at-most-once moderation actions.
//!
//! Everything in this crate is plain data and decisions. Network, timers and
//! the speech decoder live with the caller, which feeds events in and acts on
//! what comes back:
//!
//! - [`voice_receiver`] and [`guilds_voices_receivers`] turn the events of
//!   voice connections into speaker buffers and queue them for recognition;
//! - [`recognition`] walks one buffer and classifies the decoder's answers,
//!   [`recognizer`] decides which events a worker sends for it;
//! - [`phrase_matcher`] looks for the trigger phrases of [`voice_config`] in
//!   recognised text;
//! - [`recognizer_performer`] orders removals, each target once per speaking
//!   turn, and [`actions_history`] keeps the log of what was done;
//! - [`monitoring_performer`] picks the voice channel to listen on.
//!
//! User, group and channel ids are plain `u64`s. Similarities are fixed-point
//! numbers with [`voice_config::SIMILARITY_UNIT`] standing for 1.0.

pub mod actions_history;
pub mod commands_handler;
pub mod guilds_voice_config;
pub mod guilds_voices_receivers;
pub mod handler;
pub mod ids_map;
pub mod is_sub;
pub mod keys;
pub mod listen_actions;
pub mod mentions;
pub mod monitoring_performer;
pub mod phrase_matcher;
pub mod phrase_matcher_laws;
pub mod queued_items_container;
pub mod recognition;
pub mod recognizer;
pub mod recognizer_performer;
pub mod text;
pub mod text_command;
pub mod voice;
pub mod voice_config;
pub mod voice_receiver;
pub mod voice_receiver_laws;
pub mod voice_receiver_model;
