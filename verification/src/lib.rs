//! The decision logic of a Varnish module that serves files.
//!
//! `backend` holds the configuration; `fetch` answers a request with it, one
//! step at a time, and `fetch_laws` says what holds of every answer. The other
//! modules are what these two are made of; those whose names end in `_laws`, and
//! `path_meaning`, say what each part does for every input.

pub mod backend;
pub mod encoding;
pub mod escape;
pub mod escape_laws;
pub mod etag;
pub mod fetch;
pub mod fetch_laws;
pub mod html;
pub mod html_laws;
pub mod listing;
pub mod listing_laws;
pub mod mime;
pub mod mime_laws;
pub mod negotiation;
pub mod negotiation_laws;
pub mod order;
pub mod path;
pub mod path_laws;
pub mod path_meaning;
pub mod reply;
pub mod reply_laws;
pub mod request_laws;
pub mod size;
pub mod size_laws;
pub mod tag_laws;
pub mod text;
pub mod text_laws;
pub mod time;
pub mod transfer;
pub mod walk;
