//! Directory listings as HTML pages, one line for each entry with name, date
//! and size in columns.
use vstd::prelude::*;
use vstd::string::*;

use crate::escape;
use crate::listing;
use crate::listing::{AutoindexEntry, EntryView};
use crate::path;
use crate::path_laws;
use crate::size;
use crate::text;
use crate::time;
use crate::time::Timestamp;

verus! {

/// The width of the column of names.
pub const NAME_COL: usize = 50;

/// The width of the column of sizes.
pub const SIZE_COL: usize = 19;

/// `n` blanks.
pub open spec fn blanks(n: nat) -> Seq<char> {
    Seq::new(n, |i: int| ' ')
}

/// The name of an entry as it is shown and linked to: a directory's ends with
/// `/`.
pub open spec fn display_name(e: EntryView) -> Seq<char> {
    if e.is_dir {
        e.name.push('/')
    } else {
        e.name
    }
}

/// A name that fits its column: a long one is cut off and marked.
pub open spec fn shown_name(name: Seq<char>) -> Seq<char> {
    if name.len() >= NAME_COL {
        name.take(NAME_COL - 3) + "..>"@
    } else {
        name
    }
}

/// What fills up the column of names, and at least one blank.
pub open spec fn name_padding(name: Seq<char>) -> Seq<char> {
    if name.len() >= NAME_COL {
        blanks(1)
    } else {
        blanks((NAME_COL - name.len() + 1) as nat)
    }
}

/// A date as it stands in a line, with the precise time as a tooltip where one
/// is given.
pub open spec fn date_html(date: Seq<char>, precise: Option<Seq<char>>) -> Seq<char> {
    match precise {
        Some(p) => "<span title=\""@ + p + "\">"@ + date + "</span>"@,
        None => date,
    }
}

/// The modification time of an entry as it stands in a line.
pub open spec fn modified_html(modified: Option<Timestamp>, human_dates: bool) -> Seq<char> {
    match modified {
        Some(m) => date_html(
            time::utc_text(m.secs, m.nanos, time::listing_pattern()),
            if human_dates {
                Some(time::rfc3339_text(m.secs, m.nanos))
            } else {
                None
            },
        ),
        None => "-"@,
    }
}

/// The size of an entry.
pub open spec fn size_text(size: Option<u64>, human_size: bool) -> Seq<char> {
    match size {
        Some(n) => if human_size {
            size::human_size(n as nat)
        } else {
            text::digits(n as nat)
        },
        None => "-"@,
    }
}

/// What puts a size at the right edge of its column.
pub open spec fn size_padding(size: Seq<char>) -> Seq<char> {
    if size.len() >= SIZE_COL {
        blanks(0)
    } else {
        blanks((SIZE_COL - size.len()) as nat)
    }
}

/// The size of an entry as it stands in a line, with the exact number of bytes
/// as a tooltip where it is rounded.
pub open spec fn size_html(size: Option<u64>, human_size: bool) -> Seq<char> {
    match size {
        Some(n) if human_size => "<span title=\""@ + text::digits(n as nat) + " bytes\">"@ + size_text(
            size,
            human_size,
        ) + "</span>"@,
        _ => size_text(size, human_size),
    }
}

/// The line of an entry, given its date.
pub open spec fn row(e: EntryView, date: Seq<char>, human_size: bool) -> Seq<char> {
    "<a href=\""@ + escape::url_escaped(display_name(e)) + "\">"@ + escape::html_escaped(
        shown_name(display_name(e)),
    ) + "</a>"@ + name_padding(display_name(e)) + date + "  "@ + size_padding(
        size_text(e.size, human_size),
    ) + size_html(e.size, human_size) + "\n"@
}

/// The lines of the entries.
pub open spec fn rows(entries: Seq<EntryView>, human_size: bool, human_dates: bool) -> Seq<char>
    decreases entries.len(),
{
    if entries.len() == 0 {
        seq![]
    } else {
        rows(entries.drop_last(), human_size, human_dates) + row(
            entries.last(),
            modified_html(entries.last().modified, human_dates),
            human_size,
        )
    }
}

/// The part of a page before the lines: the path as a title, and below the root
/// a link to the parent directory.
pub open spec fn page_head(url_path: Seq<char>) -> Seq<char> {
    "<html>\n<head><title>Index of "@ + escape::html_escaped(url_path)
        + "</title></head>\n<body>\n<h1>Index of "@ + escape::html_escaped(url_path)
        + "</h1><hr><pre>"@ + if url_path == "/"@ {
        seq![]
    } else {
        "<a href=\"../\">../</a>\n"@
    }
}

/// The page that lists `entries`.
pub open spec fn page(
    url_path: Seq<char>,
    entries: Seq<EntryView>,
    human_size: bool,
    human_dates: bool,
) -> Seq<char> {
    page_head(url_path) + rows(entries, human_size, human_dates) + "</pre><hr></body>\n</html>\n"@
}

/// Appends `n` blanks.
fn append_blanks(out: &mut String, n: usize)
    ensures
        final(out)@ == old(out)@ + blanks(n as nat),
{
    let ghost before = out@;
    assert(before + blanks(0) =~= before);
    for i in 0..n
        invariant
            out@ == before + blanks(i as nat),
    {
        out.push(' ');
        assert(out@ =~= before + blanks((i + 1) as nat));
    }
}

/// A date as it stands in a line.
pub fn date_cell(date: &str, precise: Option<&str>) -> (r: String)
    ensures
        r@ == date_html(date@, text::opt_view(precise)),
{
    match precise {
        Some(p) => {
            let mut out = "<span title=\"".to_owned();
            out.append(p);
            out.append("\">");
            out.append(date);
            out.append("</span>");
            out
        },
        None => date.to_owned(),
    }
}

/// The modification time of an entry as it stands in a line.
fn modified_cell(modified: Option<Timestamp>, human_dates: bool) -> (r: String)
    requires
        modified matches Some(m) ==> m.has_date(),
    ensures
        r@ == modified_html(modified, human_dates),
{
    match modified {
        Some(m) => {
            let date = time::format_utc(m, "%d-%b-%Y %H:%M");
            if human_dates {
                let precise = time::format_rfc3339(m);
                date_cell(date.as_str(), Some(precise.as_str()))
            } else {
                date_cell(date.as_str(), None)
            }
        },
        None => "-".to_owned(),
    }
}

/// The size of an entry.
fn size_label(size: Option<u64>, human_size: bool) -> (r: String)
    ensures
        r@ == size_text(size, human_size),
{
    match size {
        Some(n) => if human_size {
            size::human_readable_size(n)
        } else {
            text::decimal(n)
        },
        None => "-".to_owned(),
    }
}

/// The line of one entry, given its date.
pub fn entry_row(e: &AutoindexEntry, date: &str, human_size: bool) -> (r: String)
    ensures
        r@ == row(e@, date@, human_size),
{
    let mut name = e.name.clone();
    if e.is_dir {
        name.push('/');
    }
    assert(name@ == display_name(e@));
    let list = text::chars(name.as_str());
    let len: usize = list.len();
    let mut shown = name.clone();
    let mut padding: usize = 1;
    if len >= NAME_COL {
        shown = text::string_of(&list, 0, NAME_COL - 3);
        shown.append("..>");
        assert(list@.subrange(0, NAME_COL - 3) =~= name@.take(NAME_COL - 3));
    } else {
        padding = NAME_COL - len + 1;
    }
    let href = escape::url_escape(name.as_str());
    let visible = escape::html_escape(shown.as_str());
    let label = size_label(e.size, human_size);
    let width: usize = label.as_str().unicode_len();

    let mut out = "<a href=\"".to_owned();
    out.append(href.as_str());
    out.append("\">");
    out.append(visible.as_str());
    out.append("</a>");
    append_blanks(&mut out, padding);
    out.append(date);
    out.append("  ");
    append_blanks(
        &mut out,
        if width >= SIZE_COL {
            0
        } else {
            SIZE_COL - width
        },
    );
    let ghost before = out@;
    match e.size {
        Some(n) if human_size => {
            let exact = text::decimal(n);
            out.append("<span title=\"");
            out.append(exact.as_str());
            out.append(" bytes\">");
            out.append(label.as_str());
            out.append("</span>");
        },
        _ => {
            out.append(label.as_str());
        },
    }
    assert(out@ =~= before + size_html(e@.size, human_size));
    out.append("\n");
    out
}

/// The page that lists the entries of a directory.
pub fn render_autoindex_html(
    url_path: &str,
    entries: &Vec<AutoindexEntry>,
    human_size: bool,
    human_dates: bool,
) -> (r: String)
    requires
        forall|i: int|
            0 <= i < entries@.len() ==> ((#[trigger] entries@[i]).modified matches Some(m)
                ==> m.has_date()),
    ensures
        r@ == page(url_path@, listing::views(entries@), human_size, human_dates),
{
    let title = escape::html_escape(url_path);
    let mut out = "<html>\n<head><title>Index of ".to_owned();
    out.append(title.as_str());
    out.append("</title></head>\n<body>\n<h1>Index of ");
    out.append(title.as_str());
    out.append("</h1><hr><pre>");
    if !text::same(url_path, "/") {
        out.append("<a href=\"../\">../</a>\n");
    }
    let ghost head = page_head(url_path@);
    assert(out@ =~= head);
    let ghost all = listing::views(entries@);
    let n: usize = entries.len();
    assert(all.take(0) =~= seq![]);
    assert(head + rows(all.take(0), human_size, human_dates) =~= head);
    for i in 0..n
        invariant
            n == entries@.len(),
            all == listing::views(entries@),
            forall|j: int|
                0 <= j < entries@.len() ==> ((#[trigger] entries@[j]).modified matches Some(m)
                    ==> m.has_date()),
            out@ == head + rows(all.take(i as int), human_size, human_dates),
    {
        let e = &entries[i];
        proof {
            assert(all.take(i + 1).drop_last() =~= all.take(i as int));
            assert(all.take(i + 1).last() == e@);
            assert(entries@[i as int].modified == e.modified);
        }
        let date = modified_cell(e.modified, human_dates);
        let line = entry_row(e, date.as_str(), human_size);
        let ghost before = out@;
        out.append(line.as_str());
        assert(out@ =~= head + rows(all.take(i + 1), human_size, human_dates));
    }
    assert(all.take(n as int) =~= all);
    out.append("</pre><hr></body>\n</html>\n");
    out
}

/// The columns line up: whatever its length, the shown name and the blanks
/// behind it take the width of the column and one more, of which at least one
/// is blank.
pub proof fn law_name_column_lines_up(name: Seq<char>)
    ensures
        shown_name(name).len() <= NAME_COL,
        name_padding(name).len() >= 1,
        shown_name(name).len() + name_padding(name).len() == NAME_COL + 1,
{
    reveal_strlit("..>");
}

/// A size takes the whole width of its column, or more where it is wider.
pub proof fn law_size_column_lines_up(size: Seq<char>)
    ensures
        size_padding(size).len() + size.len() == if size.len() >= SIZE_COL {
            size.len()
        } else {
            SIZE_COL as nat
        },
{
}

/// The link of a line leads to the entry that the line shows: followed from the
/// URL of the directory, it resolves to the segments of the directory and the
/// name of the entry. Every name that a listing shows is one that no dot begins;
/// that it is not empty and holds neither `/` nor NUL is so of every file name.
pub proof fn law_row_links_to_its_entry(
    url: Seq<char>,
    e: EntryView,
    date: Seq<char>,
    human_size: bool,
)
    requires
        url.len() > 0,
        url.last() == '/',
        e.name.len() > 0,
        !listing::is_dotfile(e.name),
        !e.name.contains('/'),
        !e.name.contains('\0'),
    ensures
        ("<a href=\""@ + escape::url_escaped(display_name(e)) + "\">"@).is_prefix_of(
            row(e, date, human_size),
        ),
        path::clamped(url) matches Ok(segments) ==> path::clamped(
            url + escape::url_escaped(display_name(e)),
        ) == Ok::<Seq<Seq<char>>, (path::PercentFault, Seq<char>)>(segments.push(e.name)),
{
    assert(path_laws::is_safe_segment(e.name));
    path_laws::law_href_leads_to_the_entry(url, e.name);
    assert(e.name.push('/') =~= e.name + seq!['/']);
    let link = "<a href=\""@ + escape::url_escaped(display_name(e)) + "\">"@;
    let line = row(e, date, human_size);
    assert(line.take(link.len() as int) =~= link);
}

} // verus!
