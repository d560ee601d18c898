//! Decoder for a cipher-puzzle notation. A puzzle text pairs runs of five
//! cipher symbols with bracketed numeric metadata of the shape
//! `[W x A x F][L]`; each pair describes a hidden word by its letter-value
//! sum, floor average, first letter and lowest usable letter. The library
//! tokenizes the text into segments, decodes each metadata block into a
//! constraint record, and filters a dictionary down to the words whose own
//! letter values reproduce that record, segment by segment.

pub mod alphabet;
pub mod decode;
pub mod engine;
pub mod error;
pub mod grammar;
pub mod info;
pub mod pipeline;
pub mod strutil;
pub mod tokenize;
