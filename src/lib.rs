mod error;
mod input;
mod laws;
mod parser;

pub use error::{aggregates_to, classified, end_of_input, JlnError};
pub use laws::{lemma_list_of_failures, lemma_or_aggregates, lemma_or_stops_at_fatal};
pub use parser::{
    alternation, attempt, callable_over, optional_outcome, repetition, successes, Parser,
};
