//! A length-framed, optionally compressed container of byte items.
//!
//! An archive is a header, a sequence of length-prefixed items and a footer. A Plain archive is
//! compressed as one stream; an ItemCompressed archive compresses each item as its own frame.
mod error;
mod header;
mod laws;
mod read;
mod stats;
mod train;
mod write;
mod zbuild;

pub use error::{Error, Result};
pub use header::{
    footer, header, parse_header, Kinds, FOOTER_VALUE, GLOBAL_MARKER_LEN, MAX_ITEM_SIZE,
};
pub use laws::{
    lemma_abandoned_item_poisons, lemma_ceiling_enforced, lemma_drained_item_does_not_poison, lemma_item_round_trip,
    lemma_outer_layer, lemma_plain_round_trip, lemma_round_trip, lemma_sentinel_distinct,
};
pub use read::{
    lemma_item_bounds, lemma_stream_bounds, read_archive, Expand, ExpandItem, Item, ExpandOptions, ExpandStream, Expander, Step,
    DEFAULT_MAX_ITEM_SIZE, MAX_LAYERS,
};
pub use stats::{stats, ArchiveStats};
pub use train::{lemma_training_deterministic, train, Sampler, TARGET_DICT_SIZE};
pub use write::{Compress, CompressItem, CompressOptions, CompressStream};
pub use zbuild::{DictChoice, ZstdBuilder, ZstdDict};
pub use zstd::dict::{DecoderDictionary, EncoderDictionary};
