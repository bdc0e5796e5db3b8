//! The format of a directory listing, as the client prefers it.
use vstd::prelude::*;

use crate::text;

verus! {

/// The formats of a directory listing.
#[derive(Clone, Copy, Debug, PartialEq, Eq, Structural)]
pub enum AutoindexFormat {
    Html,
    Json,
    Yaml,
}

impl AutoindexFormat {
    /// The media type of the format.
    pub open spec fn media_type(self) -> Seq<char> {
        match self {
            AutoindexFormat::Html => "text/html; charset=utf-8"@,
            AutoindexFormat::Json => "application/json"@,
            AutoindexFormat::Yaml => "application/x-yaml"@,
        }
    }

    /// The media type of the format.
    pub fn content_type(&self) -> (r: &'static str)
        ensures
            r@ == self.media_type(),
    {
        match self {
            AutoindexFormat::Html => "text/html; charset=utf-8",
            AutoindexFormat::Json => "application/json",
            AutoindexFormat::Yaml => "application/x-yaml",
        }
    }
}

/// The format for an `accept` header: JSON where it names JSON, otherwise YAML
/// where it names YAML under one of its three names, otherwise HTML.
pub open spec fn preferred(accept: Option<Seq<char>>) -> AutoindexFormat {
    match accept {
        Some(a) => if text::has_part(a, "application/json"@) {
            AutoindexFormat::Json
        } else if text::has_part(a, "application/x-yaml"@) || text::has_part(
            a,
            "application/yaml"@,
        ) || text::has_part(a, "text/yaml"@) {
            AutoindexFormat::Yaml
        } else {
            AutoindexFormat::Html
        },
        None => AutoindexFormat::Html,
    }
}

/// Picks the format from the `accept` header. The header is searched for the
/// names of the formats; quality values are not weighed.
pub fn pick_autoindex_format(accept: Option<&str>) -> (r: AutoindexFormat)
    ensures
        r == preferred(text::opt_view(accept)),
{
    match accept {
        Some(a) => if text::contains(a, "application/json") {
            AutoindexFormat::Json
        } else if text::contains(a, "application/x-yaml") || text::contains(a, "application/yaml")
            || text::contains(a, "text/yaml") {
            AutoindexFormat::Yaml
        } else {
            AutoindexFormat::Html
        },
        None => AutoindexFormat::Html,
    }
}

} // verus!
