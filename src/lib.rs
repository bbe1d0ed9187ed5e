//! Call-stack tracking and type aggregation for traced program runs.
//!
//! The library turns a stream of enter / local-binding / exit events into
//! completed frames, canonicalizes the runtime identifiers that key them, and
//! decides how each completed frame merges into a union-only record store.
mod canonical;
mod event;
mod frame;
mod store;
mod trace;

pub use canonical::{
    canonical, canonicalize, generated_marker, is_hex_digit, lemma_generated_tag_replaced,
    strip_tags, tag_at, tag_of,
};
pub use event::{
    block_key, call_key, decimal, digit_char, digits, is_name_stop, is_white_space, name_end,
    segment_start, short_location, singleton_name, singleton_name_start, symbol_of,
    trim_separators, Event, EventType,
};
pub use store::{
    distinct_lines, lemma_merge_monotone, lemma_merge_twice_no_write, lemma_merge_twice_same_set,
    lemma_persisted_is_union, line_set, merge, needs_write, persisted, persisted_after, Record,
    RecordKind,
};
pub use frame::{is_local_record, is_return_record, local_record_name, Frame};
pub use trace::{after_pops, lemma_lifo, popped, rest_of, top_of, Trace};
