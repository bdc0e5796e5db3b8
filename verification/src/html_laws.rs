//! What stands on the page of a listing.
use vstd::prelude::*;

use crate::escape;
use crate::html;
use crate::listing::EntryView;
use crate::size;
use crate::text;
use crate::time;
use crate::time::Timestamp;

verus! {

/// Whether a text is this many blanks.
pub open spec fn is_blank(s: Seq<char>, n: int) -> bool {
    &&& s.len() == n
    &&& forall|i: int| 0 <= i < s.len() ==> #[trigger] s[i] == ' '
}

/// The date column: the time in the form `02-Sep-2026 17:18`, in a span with the
/// precise time as its title where that is wanted.
pub proof fn law_known_date_is_shown(m: Timestamp)
    ensures
        html::modified_html(Some(m), false) == time::utc_text(m.secs, m.nanos, "%d-%b-%Y %H:%M"@),
        html::modified_html(Some(m), true) == "<span title=\""@ + time::rfc3339_text(
            m.secs,
            m.nanos,
        ) + "\">"@ + time::utc_text(m.secs, m.nanos, "%d-%b-%Y %H:%M"@) + "</span>"@,
        html::modified_html(None, false) == "-"@,
        html::modified_html(None, true) == "-"@,
{
}

/// A date cell holds the date it is given, and a title exactly if there is one.
pub proof fn law_date_cell(date: Seq<char>, precise: Seq<char>)
    ensures
        html::date_html(date, None) == date,
        html::date_html(date, Some(precise)) == "<span title=\""@ + precise + "\">"@ + date
            + "</span>"@,
{
}

/// The size column: `-` where there is no size, otherwise the number of bytes,
/// or the rounded size in a span with the number of bytes as its title.
pub proof fn law_size_is_shown(n: u64)
    ensures
        html::size_html(Some(n), false) == text::digits(n as nat),
        html::size_html(Some(n), true) == "<span title=\""@ + text::digits(n as nat) + " bytes\">"@
            + size::human_size(n as nat) + "</span>"@,
        html::size_html(None, false) == "-"@,
        html::size_html(None, true) == "-"@,
{
}

/// The line of an entry: its name, linked to, then its date, then its size, each
/// at the place of its column. A directory has a `/` behind its name. A name of
/// fifty characters or more is cut off behind forty-seven.
pub proof fn law_line_of_an_entry(
    e: EntryView,
    date: Seq<char>,
    human_size: bool,
    name: Seq<char>,
    shown: Seq<char>,
    gap: Seq<char>,
    fill: Seq<char>,
    size: Seq<char>,
)
    requires
        name == e.name + (if e.is_dir {
            "/"@
        } else {
            ""@
        }),
        name.len() < 50 ==> shown == name && is_blank(gap, 51 - name.len()),
        name.len() >= 50 ==> shown == name.take(47) + "..>"@ && is_blank(gap, 1),
        size == match e.size {
            None => "-"@,
            Some(n) => if human_size {
                size::human_size(n as nat)
            } else {
                text::digits(n as nat)
            },
        },
        size.len() < 19 ==> is_blank(fill, 19 - size.len()),
        size.len() >= 19 ==> is_blank(fill, 0),
    ensures
        html::row(e, date, human_size) == "<a href=\""@ + escape::url_escaped(name) + "\">"@
            + escape::html_escaped(shown) + "</a>"@ + gap + date + "  "@ + fill + html::size_html(
            e.size,
            human_size,
        ) + "\n"@,
{
    reveal_strlit("/");
    reveal_strlit("");
    assert(name =~= html::display_name(e));
    assert(shown =~= html::shown_name(name));
    assert(gap =~= html::name_padding(name));
    assert(fill =~= html::size_padding(size));
}

/// The end of a page.
pub open spec fn page_end() -> Seq<char> {
    "</pre><hr></body>\n</html>\n"@
}

/// A page without entries: the path as the title and as the heading, and a link
/// to the parent unless this is the root.
pub proof fn law_page_without_entries(
    url_path: Seq<char>,
    human_size: bool,
    human_dates: bool,
)
    ensures
        ({
            let title = escape::html_escaped(url_path);
            let head = "<html>\n<head><title>Index of "@ + title
                + "</title></head>\n<body>\n<h1>Index of "@ + title + "</h1><hr><pre>"@;
            html::page(url_path, seq![], human_size, human_dates) == head + (if url_path == "/"@ {
                ""@
            } else {
                "<a href=\"../\">../</a>\n"@
            }) + page_end()
        }),
{
    reveal_strlit("");
    assert(""@ =~= seq![]);
    assert(html::page_head(url_path) + html::rows(seq![], human_size, human_dates)
        =~= html::page_head(url_path));
}

/// One entry more is one line more at the end of the lines: the line of that
/// entry with its own date, whether it is a directory or a file. The lines
/// before it stay as they are.
pub proof fn law_page_grows_by_the_line_of_the_entry(
    url_path: Seq<char>,
    entries: Seq<EntryView>,
    e: EntryView,
    human_size: bool,
    human_dates: bool,
)
    ensures
        ({
            let before = html::page(url_path, entries, human_size, human_dates);
            let line = html::row(e, html::modified_html(e.modified, human_dates), human_size);
            &&& before.len() >= page_end().len()
            &&& html::page(url_path, entries.push(e), human_size, human_dates) == before.take(
                before.len() - page_end().len(),
            ) + line + page_end()
        }),
{
    assert(entries.push(e).drop_last() =~= entries);
    let lines = html::page_head(url_path) + html::rows(entries, human_size, human_dates);
    let before = html::page(url_path, entries, human_size, human_dates);
    assert(before.take(before.len() - page_end().len()) =~= lines);
    let line = html::row(e, html::modified_html(e.modified, human_dates), human_size);
    assert(html::page_head(url_path) + (html::rows(entries, human_size, human_dates) + line)
        =~= lines + line);
}

/// Every entry of a listing has its line on the page. The date on it, of a
/// directory as of a file, is the time of the entry where that is known, and `-`
/// only where it is not.
pub proof fn law_page_shows_each_entry_with_its_date(
    url_path: Seq<char>,
    entries: Seq<EntryView>,
    i: int,
    human_size: bool,
)
    requires
        0 <= i < entries.len(),
    ensures
        exists|before: Seq<char>, date: Seq<char>, after: Seq<char>|
            {
                &&& html::page(url_path, entries, human_size, false) == #[trigger] (before
                    + html::row(entries[i], date, human_size) + after)
                &&& date == match entries[i].modified {
                    Some(m) => time::utc_text(m.secs, m.nanos, "%d-%b-%Y %H:%M"@),
                    None => "-"@,
                }
            },
{
    let (a, b) = lemma_rows_hold(entries, i, human_size);
    let date = html::modified_html(entries[i].modified, false);
    if let Some(m) = entries[i].modified {
        law_known_date_is_shown(m);
    }
    lemma_around(
        html::page_head(url_path),
        a,
        html::row(entries[i], date, human_size),
        b,
        page_end(),
    );
}

proof fn lemma_around(
    head: Seq<char>,
    a: Seq<char>,
    line: Seq<char>,
    b: Seq<char>,
    end: Seq<char>,
)
    ensures
        head + (a + line + b) + end == (head + a) + line + (b + end),
{
    assert(head + (a + line + b) + end =~= (head + a) + line + (b + end));
}

proof fn lemma_rows_hold(entries: Seq<EntryView>, i: int, human_size: bool) -> (r: (
    Seq<char>,
    Seq<char>,
))
    requires
        0 <= i < entries.len(),
    ensures
        html::rows(entries, human_size, false) == r.0 + html::row(
            entries[i],
            html::modified_html(entries[i].modified, false),
            human_size,
        ) + r.1,
    decreases entries.len(),
{
    let init = entries.drop_last();
    let last = entries.last();
    let line = html::row(last, html::modified_html(last.modified, false), human_size);
    let own = html::row(
        entries[i],
        html::modified_html(entries[i].modified, false),
        human_size,
    );
    if i == entries.len() - 1 {
        let r = (html::rows(init, human_size, false), Seq::<char>::empty());
        assert(html::rows(entries, human_size, false) =~= r.0 + own + r.1);
        r
    } else {
        let (a, b) = lemma_rows_hold(init, i, human_size);
        assert(init[i] == entries[i]);
        assert(html::rows(entries, human_size, false) =~= a + own + (b + line));
        (a, b + line)
    }
}

} // verus!
