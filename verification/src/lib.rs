//! Generation of question/answer datasets from raw text.
//!
//! The library splits input text into bounded chunks, reduces the
//! semi-structured replies of a text-generation service to a uniform
//! sequence of question/answer pairs, and encodes the result as CSV.

mod chunk;
mod csv_enc;
mod json;
mod normalize;
mod pipeline;
mod text;

pub use chunk::split;
pub use csv_enc::encode_csv;
pub use json::JsonValue;
pub use normalize::GenerationReply;
pub use normalize::SchemaError;
pub use normalize::normalize;
pub use pipeline::ChunkStrategy;
pub use pipeline::GenerationServiceError;
pub use pipeline::InputDecodingError;
pub use pipeline::build_prompt;
pub use pipeline::chunk_pairs;
pub use pipeline::collect_pairs;
pub use pipeline::decode_input;
pub use pipeline::prepare_chunks;
pub use pipeline::respond_csv;
pub use chunk::split_text_into_chunks;
pub use text::split_lines;
pub use text::word_count;
