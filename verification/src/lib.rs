//! A small HTTP/1.1 client core: URL parsing, request serialisation, response
//! parsing with chunked transfer decoding, and the text utilities of the
//! commands built around it.

pub mod client;
pub mod eval;
pub mod header_map;
pub mod levenshtein;
pub mod number;
pub mod percent;
pub mod request;
pub mod response;
pub mod response_laws;
pub mod search;
pub mod status;
pub mod text;
pub mod url;
pub mod url_laws;
