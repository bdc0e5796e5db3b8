//! The configuration of a backend, and its table of media types.
use vmod_fileserver::backend::{
    file_backend, index_file_message, validate_index_file_name, MimeFile, SetupError,
};
use vmod_fileserver::mime::{build_mime_dict, is_space, split_words};

#[test]
fn duplicate_extension_uses_last_value() {
    let h = build_mime_dict("text/plain txt\napplication/pdf pdf\napplication/text txt\n");
    assert_eq!(h.get("txt"), Some("application/text"));
    assert_eq!(h.get("pdf"), Some("application/pdf"));
}

#[test]
fn good() {
    let h = build_mime_dict("type1 t1 T1\n# type2 t2\n\ntype3\tt3 ty3   T3\n");
    assert_eq!(h.get("t1"), Some("type1"));
    assert_eq!(h.get("T1"), Some("type1"));
    assert_eq!(h.get("t3"), Some("type3"));
    assert_eq!(h.get("ty3"), Some("type3"));
    assert_eq!(h.get("T3"), Some("type3"));
    assert_eq!(h.get("t2"), None);
}

#[test]
fn media_types_of_odd_lines() {
    let h = build_mime_dict("  \n#a b\nlonely\r\nx\u{a0}y\r\n  #c d\nlast z");
    assert_eq!(h.get("b"), None);
    assert_eq!(h.get("d"), None);
    assert_eq!(h.get("lonely"), None);
    assert_eq!(h.get("y"), Some("x"));
    assert_eq!(h.get("z"), Some("last"));
    assert_eq!(build_mime_dict("").get(""), None);
}

#[test]
fn blanks_are_those_of_std() {
    for n in 0..0x11_0000u32 {
        if let Some(c) = char::from_u32(n) {
            assert_eq!(is_space(c), c.is_whitespace());
        }
    }
    let s = "\u{2003}a\t\u{e9}b \u{3000}\nc\u{85}";
    let expected: Vec<&str> = s.split_whitespace().collect();
    assert_eq!(split_words(s), expected);
}

#[test]
fn index_file_name_bare_filename_is_valid() {
    assert!(validate_index_file_name("index.html").is_ok());
}

#[test]
fn index_file_name_rejects_subdirectory() {
    assert!(validate_index_file_name("sub/index.html").is_err());
}

#[test]
fn index_file_name_rejects_absolute_path() {
    assert!(validate_index_file_name("/etc/passwd").is_err());
}

#[test]
fn index_file_name_rejects_empty() {
    assert!(validate_index_file_name("").is_err());
}

#[test]
fn index_file_name_rejects_dot_and_dotdot() {
    assert!(validate_index_file_name(".").is_err());
    assert!(validate_index_file_name("..").is_err());
}

#[test]
fn index_file_name_allows_other_dots() {
    assert!(validate_index_file_name("...").is_ok());
    assert!(validate_index_file_name(".index").is_ok());
}

#[test]
fn errors_have_their_texts() {
    let e = validate_index_file_name("a/\"b\"").unwrap_err();
    assert_eq!(
        e.message(),
        "fileserver: index_file \"a/\\\"b\\\"\" must be a bare filename, not a path"
    );
    assert_eq!(
        index_file_message("<q>"),
        "fileserver: index_file <q> must be a bare filename, not a path"
    );
    let e = file_backend::root("www", "", None, false).err().unwrap();
    assert_eq!(e.message(), "fileserver: can't create www with an empty path");
    let mut setup = file_backend::root("www", "/srv", Some("/x"), false).ok().unwrap();
    let e = setup.load_mimes(Err("no such file".to_string())).unwrap_err();
    assert_eq!(e.message(), "no such file");
    let e = setup.finish(Err("gone".to_string())).err().unwrap();
    assert_eq!(e.message(), "fileserver: can't open root /srv: gone");
}

#[test]
fn a_new_backend_has_the_defaults() {
    let setup = file_backend::root("www", "/srv", Some(""), false).ok().unwrap();
    assert!(matches!(setup.mime_file, MimeFile::Off));
    assert!(setup.needs_root_dir());
    let b = setup.finish(Ok(())).ok().unwrap();
    assert_eq!(b.backend.path, "/srv");
    assert!(b.backend.mimes.is_none());
    assert!(!b.backend.follow_links);
    assert!(b.backend.index_files.is_empty());
    assert!(!b.backend.autoindex_enabled());
    assert!(b.backend.autoindex_human_size);
    assert!(b.backend.autoindex_human_dates);
}

#[test]
fn media_types_are_read_from_the_file_that_was_named() {
    let mut setup = file_backend::root("www", "/srv", None, true).ok().unwrap();
    assert!(!setup.needs_root_dir());
    assert!(matches!(&setup.mime_file, MimeFile::Optional(p) if p == "/etc/mime.types"));
    assert!(setup.load_mimes(Err("missing".to_string())).is_ok());
    assert!(setup.backend.mimes.is_none());
    assert!(setup.load_mimes(Ok("text/x x".to_string())).is_ok());
    assert_eq!(setup.backend.mimes.as_ref().unwrap().get("x"), Some("text/x"));
    // the root is not opened where links are followed
    assert!(setup.finish(Err("ignored".to_string())).is_ok());

    let mut setup = file_backend::root("www", "/srv", Some("/my.types"), false).ok().unwrap();
    assert!(matches!(&setup.mime_file, MimeFile::Required(p) if p == "/my.types"));
    assert!(matches!(
        setup.load_mimes(Err("missing".to_string())),
        Err(SetupError::MimeFile { .. })
    ));

    let mut setup = file_backend::root("www", "/srv", Some(""), false).ok().unwrap();
    assert!(setup.load_mimes(Ok("text/x x".to_string())).is_ok());
    assert!(setup.backend.mimes.is_none());
}

#[test]
fn settings_change_one_thing_each() {
    let setup = file_backend::root("www", "/srv", Some(""), true).ok().unwrap();
    let mut b = setup.finish(Ok(())).ok().unwrap();
    assert!(b.index_file("index.html").is_ok());
    assert!(b.index_file("a/b").is_err());
    assert!(b.index_file("index.htm").is_ok());
    assert_eq!(b.backend.index_files, ["index.html", "index.htm"]);
    b.autoindex(true);
    b.autoindex_human_size(false);
    b.autoindex_human_dates(false);
    assert!(b.backend.autoindex_enabled());
    assert!(!b.backend.autoindex_human_size);
    assert!(!b.backend.autoindex_human_dates);
    b.autoindex(false);
    b.autoindex_human_size(true);
    assert!(!b.backend.autoindex);
    assert!(b.backend.autoindex_human_size);
    assert!(!b.backend.autoindex_human_dates);
}
