//! A local command-execution relay: one long-lived connection carries many
//! request/response exchanges, some of which stream partial results while the
//! underlying command runs.
//!
//! This crate holds the verified core: the protocol message model and its
//! wire codec, the line reader's splitting step, the debounced batcher that
//! bounds latency and message rate of streamed output, the executor state
//! machine that drives one spawned process's output, the session dispatch
//! rules, and the cancellation registry.

mod batcher;
mod codec;
mod decimal;
mod decode;
mod executor;
mod message;
mod outside;
mod reader;
mod registry;
mod roundtrip;
mod session;

pub use batcher::Batcher;
pub use batcher::FLUSH_INTERVAL;
pub use batcher::MAX_PENDING_LINES;
pub use batcher::flushed_of;
pub use codec::spec_encode;
pub use decimal::dec_of;
pub use decimal::is_decimal;
pub use decimal::u64_to_dec_string;
pub use decode::decode_frame;
pub use decode::decode_incoming;
pub use decode::spec_decode;
pub use executor::Executor;
pub use executor::INACTIVITY_TIMEOUT;
pub use executor::join_lines;
pub use executor::join_with_newlines;
pub use message::MessageData;
pub use message::MessageType;
pub use message::MessageView;
pub use outside::lossy_decode;
pub use outside::lossy_text;
pub use outside::shell_split;
pub use reader::LineSplitter;
pub use reader::decode_lines;
pub use reader::line_free;
pub use reader::split_stream;
pub use reader::strip_cr;
pub use registry::Registry;
pub use registry::SessionState;
pub use registry::lemma_abort_all_stops_every_session;
pub use registry::session_stopped;
pub use roundtrip::lemma_encode_decode_round_trip;
pub use session::Action;
pub use session::CommandSpec;
pub use session::build_shell_command;
pub use session::chunk_message;
pub use session::completion_reply;
pub use session::handle_request;
pub use session::ls_command;
pub use session::map_option;
pub use session::opt_text;
pub use session::time_reply;
