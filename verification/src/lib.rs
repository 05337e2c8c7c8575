//! Aggregate statistics over line-delimited web-crawl records: per-domain
//! visit counts, an inter-domain outlink graph, and word and trigram
//! frequency tables over sentences accepted by a language classifier.

pub mod counts;
pub mod table;
pub mod text;
pub mod sentence;
pub mod domain;
pub mod aggregate;
pub mod links;
pub mod json;
pub mod record;
pub mod langid;
pub mod extract;
pub mod segment;
pub mod report;
pub mod checkpoint;
pub mod pipeline;
pub mod laws;
