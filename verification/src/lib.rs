//! Preparation of text and image inputs for embedding models.

pub mod batch;
pub mod charsmap;
pub mod compose;
pub mod deepghs;
pub mod description;
pub mod error;
pub mod expression;
pub mod float;
pub mod growth;
pub mod hub;
pub mod integer;
pub mod json;
pub mod outcomes;
pub mod parts;
pub mod picture;
pub mod preprocess;
pub mod properties;
pub mod session;
pub mod steps;
pub mod tensor;
pub mod text;
pub mod tokenizer;
pub mod transform;
pub mod views;
pub mod vocabulary;
pub mod weights;
