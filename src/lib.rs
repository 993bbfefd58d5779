//! Batch production for training data: a read-only dataset, an index
//! scheduler that hands out disjoint batches of indices, a windowing
//! transform that cuts a token stream into (feature, label) pairs, and a
//! vocabulary that turns text into token ids and back.
use vstd::prelude::*;

pub mod dataset;
pub mod scheduler;
pub mod vocab;
pub mod window;

pub use dataset::Dataset;
pub use scheduler::{IndexQueue, LoaderConfig, LoaderError};
pub use vocab::{
    SentenceType, VocabError, Vocabulary, EOF_TOKEN, PADDING_TOKEN, UNKNOWN_TOKEN,
};
pub use window::{gen_rnn_train_data, TrainData};

verus! {

} // verus!
