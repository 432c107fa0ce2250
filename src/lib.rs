//! Content-generation helpers: placeholder substitution over templates, a
//! typed-value serializer, a typed attribute store, a MIME-type table and a
//! small country/city reference dataset.

pub mod content;
pub mod html;
pub mod json;
pub mod mime;
pub mod rules;
pub mod scan;
pub mod table;
pub mod text;
pub mod world;
