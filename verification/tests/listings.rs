//! Directory listings.
use vmod_fileserver::html::{date_cell, entry_row, render_autoindex_html};
use vmod_fileserver::listing::{
    AutoindexEntry, EntryFacts, Examined, Listing, RawEntry, SimpleType, MAX_LISTING_ENTRIES,
};
use vmod_fileserver::negotiation::{pick_autoindex_format, AutoindexFormat};
use vmod_fileserver::order::sort_entries;
use vmod_fileserver::time::Timestamp;

#[test]
fn pick_autoindex_format_defaults_to_html() {
    assert!(matches!(
        pick_autoindex_format(None),
        AutoindexFormat::Html
    ));
    assert!(matches!(
        pick_autoindex_format(Some("text/plain")),
        AutoindexFormat::Html
    ));
}

#[test]
fn pick_autoindex_format_matches_json_and_yaml() {
    assert!(matches!(
        pick_autoindex_format(Some("application/json")),
        AutoindexFormat::Json
    ));
    assert!(matches!(
        pick_autoindex_format(Some("application/x-yaml")),
        AutoindexFormat::Yaml
    ));
}

#[test]
fn pick_autoindex_format_searches_the_header() {
    for (accept, format) in [
        ("text/html, application/json;q=0.1", AutoindexFormat::Json),
        ("application/yaml, application/json", AutoindexFormat::Json),
        ("application/yaml", AutoindexFormat::Yaml),
        ("text/yaml", AutoindexFormat::Yaml),
        ("yaml", AutoindexFormat::Html),
        ("", AutoindexFormat::Html),
    ] {
        assert_eq!(pick_autoindex_format(Some(accept)), format);
    }
}

#[test]
fn content_types() {
    assert_eq!(AutoindexFormat::Html.content_type(), "text/html; charset=utf-8");
    assert_eq!(AutoindexFormat::Json.content_type(), "application/json");
    assert_eq!(AutoindexFormat::Yaml.content_type(), "application/x-yaml");
}

fn entry(name: &str, is_dir: bool, size: u64) -> AutoindexEntry {
    AutoindexEntry {
        name: name.to_string(),
        is_dir,
        size: if is_dir { None } else { Some(size) },
        modified: None,
    }
}

#[test]
fn directories_come_first_and_names_are_ordered_by_bytes() {
    let names = [
        ("b", false),
        ("a", false),
        ("Z", false),
        ("\u{e9}", false),
        ("z", true),
        ("ab", true),
        ("a", true),
    ];
    let entries = names.iter().map(|(n, d)| entry(n, *d, 1)).collect();
    let sorted = sort_entries(entries);
    let result: Vec<(&str, bool)> = sorted.iter().map(|e| (e.name.as_str(), e.is_dir)).collect();
    assert_eq!(
        result,
        [
            ("a", true),
            ("ab", true),
            ("z", true),
            ("Z", false),
            ("a", false),
            ("b", false),
            ("\u{e9}", false),
        ]
    );
}

#[test]
fn sorting_agrees_with_std() {
    let mut x: u64 = 42;
    for n in 0..60usize {
        let mut entries = Vec::new();
        for i in 0..n {
            x = x.wrapping_mul(6364136223846793005).wrapping_add(1442695040888963407);
            entries.push(entry(&format!("{}", (x >> 33) % 20), (x >> 60) % 2 == 0, i as u64));
        }
        let mut expected: Vec<(String, bool, Option<u64>)> =
            entries.iter().map(|e| (e.name.clone(), e.is_dir, e.size)).collect();
        expected.sort_by(|a, b| b.1.cmp(&a.1).then_with(|| a.0.cmp(&b.0)));
        let result: Vec<(String, bool, Option<u64>)> =
            sort_entries(entries).into_iter().map(|e| (e.name, e.is_dir, e.size)).collect();
        assert_eq!(result, expected);
    }
}

fn facts(kind: SimpleType, len: u64) -> Option<EntryFacts> {
    Some(EntryFacts { kind, len, modified: Some(Timestamp { secs: 1, nanos: 2 }) })
}

#[test]
fn listings_leave_some_entries_out() {
    let mut l = Listing::new();
    assert_eq!(l.examine(RawEntry::Named("b.txt")), Examined::Stat);
    l.record("b.txt", facts(SimpleType::File, 12));
    assert_eq!(l.examine(RawEntry::Named(".git")), Examined::Skip);
    assert_eq!(l.examine(RawEntry::NotUtf8), Examined::Skip);
    assert_eq!(l.examine(RawEntry::Named("link")), Examined::Stat);
    l.record("link", facts(SimpleType::Symlink, 1));
    assert_eq!(l.examine(RawEntry::Named("gone")), Examined::Stat);
    l.record("gone", None);
    assert_eq!(l.examine(RawEntry::Named("dir")), Examined::Stat);
    l.record("dir", facts(SimpleType::Dir, 4096));
    assert_eq!(l.examine(RawEntry::Named("fifo")), Examined::Stat);
    l.record("fifo", facts(SimpleType::Other, 0));
    assert_eq!(l.seen, 7);
    let (entries, truncated) = l.finish();
    assert!(!truncated);
    assert_eq!(entries.len(), 3);
    assert_eq!((entries[0].name.as_str(), entries[0].is_dir, entries[0].size), ("dir", true, None));
    assert_eq!(
        (entries[1].name.as_str(), entries[1].is_dir, entries[1].size),
        ("b.txt", false, Some(12))
    );
    assert_eq!(
        (entries[2].name.as_str(), entries[2].is_dir, entries[2].size),
        ("fifo", false, Some(0))
    );
    assert_eq!(entries[1].modified, Some(Timestamp { secs: 1, nanos: 2 }));
}

#[test]
fn an_unreadable_entry_ends_a_listing() {
    let mut l = Listing::new();
    assert_eq!(l.examine(RawEntry::Unreadable), Examined::Fail);
}

#[test]
fn listings_are_truncated_by_what_was_examined() {
    let mut l = Listing::new();
    for _ in 0..MAX_LISTING_ENTRIES {
        assert_eq!(l.examine(RawEntry::Named(".hidden")), Examined::Skip);
    }
    assert!(!l.truncated);
    assert_eq!(l.examine(RawEntry::Named("visible")), Examined::Stop);
    let (entries, truncated) = l.finish();
    assert!(entries.is_empty());
    assert!(truncated);
    // the end of the directory comes before an unreadable entry
    let mut l = Listing::new();
    l.seen = MAX_LISTING_ENTRIES;
    assert_eq!(l.examine(RawEntry::Unreadable), Examined::Stop);
}

#[test]
fn rows_line_up() {
    let row = entry_row(&entry("a b.txt", false, 4300), "DATE", true);
    assert_eq!(
        row,
        format!(
            "<a href=\"a%20b.txt\">a b.txt</a>{}DATE  {}<span title=\"4300 bytes\">4.2K</span>\n",
            " ".repeat(44),
            " ".repeat(15)
        )
    );
    let row = entry_row(&entry("dir", true, 0), "-", true);
    assert_eq!(
        row,
        format!("<a href=\"dir/\">dir/</a>{}-  {}-\n", " ".repeat(47), " ".repeat(18))
    );
    let row = entry_row(&entry("x<y", false, 4300), "-", false);
    assert_eq!(
        row,
        format!("<a href=\"x%3Cy\">x&lt;y</a>{}-  {}4300\n", " ".repeat(48), " ".repeat(15))
    );
}

#[test]
fn long_names_are_cut_off() {
    let name = "n".repeat(50);
    let row = entry_row(&entry(&name, false, 1), "-", false);
    assert_eq!(
        row,
        format!("<a href=\"{name}\">{}..&gt;</a> -  {}1\n", "n".repeat(47), " ".repeat(18))
    );
    let name = "n".repeat(49);
    let row = entry_row(&entry(&name, false, 1), "-", false);
    assert_eq!(row, format!("<a href=\"{name}\">{name}</a>  -  {}1\n", " ".repeat(18)));
    // with its slash, this directory's name is too long by one
    let row = entry_row(&entry(&name, true, 1), "-", false);
    assert_eq!(
        row,
        format!("<a href=\"{name}/\">{}..&gt;</a> -  {}-\n", "n".repeat(47), " ".repeat(18))
    );
}

#[test]
fn dates_may_have_a_tooltip() {
    assert_eq!(date_cell("D", None), "D");
    assert_eq!(date_cell("D", Some("P")), "<span title=\"P\">D</span>");
}

#[test]
fn pages_hold_the_path_and_the_entries() {
    let mut file = entry("f", false, 2048);
    file.modified = Some(Timestamp { secs: 1_788_369_480, nanos: 0 });
    let entries = vec![entry("d", true, 0), file];
    let page = render_autoindex_html("/a&b/", &entries, true, true);
    let expected = format!(
        "<html>\n<head><title>Index of /a&amp;b/</title></head>\n<body>\n\
         <h1>Index of /a&amp;b/</h1><hr><pre><a href=\"../\">../</a>\n\
         <a href=\"d/\">d/</a>{}-  {}-\n\
         <a href=\"f\">f</a>{}<span title=\"2026-09-02T17:18:00+00:00\">02-Sep-2026 17:18</span>  \
         {}<span title=\"2048 bytes\">2.0K</span>\n\
         </pre><hr></body>\n</html>\n",
        " ".repeat(49),
        " ".repeat(18),
        " ".repeat(50),
        " ".repeat(15)
    );
    assert_eq!(page, expected);
    let page = render_autoindex_html("/a&b/", &entries, false, false);
    assert!(page.contains(&format!("</a>{}02-Sep-2026 17:18  {}2048\n", " ".repeat(50), " ".repeat(15))));
    assert!(!page.contains("<span"));
}

#[test]
fn the_root_has_no_parent_link() {
    let page = render_autoindex_html("/", &Vec::new(), true, true);
    assert_eq!(
        page,
        "<html>\n<head><title>Index of /</title></head>\n<body>\n<h1>Index of /</h1><hr><pre>\
         </pre><hr></body>\n</html>\n"
    );
}

#[test]
fn dates_with_fractions_of_a_second() {
    let mut e = entry("f", false, 1);
    e.modified = Some(Timestamp { secs: -1, nanos: 500_000_000 });
    let page = render_autoindex_html("/", &vec![e], false, true);
    assert!(page.contains(
        "<span title=\"1969-12-31T23:59:59.500+00:00\">31-Dec-1969 23:59</span>"
    ));
}
