//! Which format a client gets.
use vstd::prelude::*;

use crate::negotiation;
use crate::negotiation::AutoindexFormat;
use crate::text;
use crate::text_laws;

verus! {

/// Whether a header holds a name, with anything before and behind it.
pub open spec fn names(header: Seq<char>, name: Seq<char>) -> bool {
    exists|a: Seq<char>, b: Seq<char>| header == #[trigger] (a + name + b)
}

/// JSON goes exactly to clients that name it; YAML to those that name it, in one
/// of three ways, and do not name JSON; HTML to all others, in particular to
/// those that name none of the four and to those that say nothing.
pub proof fn law_format_is_one_that_the_client_names(accept: Seq<char>)
    ensures
        ({
            let json = names(accept, "application/json"@);
            let yaml = names(accept, "application/x-yaml"@) || names(accept, "application/yaml"@)
                || names(accept, "text/yaml"@);
            let format = negotiation::preferred(Some(accept));
            &&& format == AutoindexFormat::Json <==> json
            &&& format == AutoindexFormat::Yaml <==> yaml && !json
            &&& format == AutoindexFormat::Html <==> !yaml && !json
        }),
        negotiation::preferred(None) == AutoindexFormat::Html,
{
    text_laws::law_part_stands_between_others(accept, "application/json"@);
    text_laws::law_part_stands_between_others(accept, "application/x-yaml"@);
    text_laws::law_part_stands_between_others(accept, "application/yaml"@);
    text_laws::law_part_stands_between_others(accept, "text/yaml"@);
}

/// The media type that goes with each format.
pub proof fn law_media_types_of_listings()
    ensures
        AutoindexFormat::Html.media_type() == "text/html; charset=utf-8"@,
        AutoindexFormat::Json.media_type() == "application/json"@,
        AutoindexFormat::Yaml.media_type() == "application/x-yaml"@,
{
}

} // verus!
