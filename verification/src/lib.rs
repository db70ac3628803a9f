//! An ordered multi-valued dictionary: a sequence of key-value elements that
//! keeps insertion order and lets one key stand in any number of elements, as
//! HTTP headers and URL query strings need it.
//!
//! ```
//! use multidict::{MultiDict, MultiElement};
//!
//! let mut map = MultiDict::new();
//! map.add(MultiElement { key: "accept".to_string(), value: "text/html".to_string() });
//! map.add(MultiElement { key: "accept".to_string(), value: "*/*".to_string() });
//! assert_eq!(map.get("accept").unwrap().value, "text/html");
//! assert_eq!(map.getall("accept").unwrap().len(), 2);
//! assert_eq!(map.to_string(), r#"MultiDict < "accept":"text/html", "accept":"*/*" >"#);
//! ```
//!
//! Every operation is a linear scan. `model` says what each of them means on a
//! sequence of entries, `dict` and `element` hold the code that is proved to do
//! so, and `laws` holds what follows for every dictionary.

pub mod dict;
pub mod element;
pub mod laws;
pub mod model;
mod text;

pub use dict::{MultiDict, KEY_NOT_FOUND};
pub use element::MultiElement;
