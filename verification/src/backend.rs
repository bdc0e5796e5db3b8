//! The configuration of a file-serving backend.
use vstd::prelude::*;
use vstd::string::*;

use crate::mime;
use crate::mime::MimeDict;
use crate::path_laws;
use crate::text;

verus! {

/// Why a backend cannot be set up as asked.
#[derive(Debug)]
pub enum SetupError {
    /// The root path of the backend with this name is empty.
    EmptyPath { name: String },
    /// This is not a bare file name.
    IndexFileName { name: String },
    /// The file of media types cannot be read.
    MimeFile { reason: String },
    /// The root directory cannot be opened.
    RootDir { path: String, reason: String },
}

/// What is known of an error.
pub enum SetupFault {
    EmptyPath { name: Seq<char> },
    IndexFileName { name: Seq<char> },
    MimeFile { reason: Seq<char> },
    RootDir { path: Seq<char>, reason: Seq<char> },
}

impl View for SetupError {
    type V = SetupFault;

    open spec fn view(&self) -> SetupFault {
        match self {
            SetupError::EmptyPath { name } => SetupFault::EmptyPath { name: name@ },
            SetupError::IndexFileName { name } => SetupFault::IndexFileName { name: name@ },
            SetupError::MimeFile { reason } => SetupFault::MimeFile { reason: reason@ },
            SetupError::RootDir { path, reason } => SetupFault::RootDir {
                path: path@,
                reason: reason@,
            },
        }
    }
}

/// The text of an error about an index file name, given the name in quotes.
pub open spec fn index_file_text(quoted: Seq<char>) -> Seq<char> {
    "fileserver: index_file "@ + quoted + " must be a bare filename, not a path"@
}

/// The text of an error.
pub open spec fn setup_text(fault: SetupFault) -> Seq<char> {
    match fault {
        SetupFault::EmptyPath { name } => "fileserver: can't create "@ + name
            + " with an empty path"@,
        SetupFault::IndexFileName { name } => index_file_text(text::quoted_text(name)),
        SetupFault::MimeFile { reason } => reason,
        SetupFault::RootDir { path, reason } => "fileserver: can't open root "@ + path + ": "@
            + reason,
    }
}

/// The text of an error about an index file name, given the name in quotes.
pub fn index_file_message(quoted: &str) -> (r: String)
    ensures
        r@ == index_file_text(quoted@),
{
    let mut out = "fileserver: index_file ".to_owned();
    out.append(quoted);
    out.append(" must be a bare filename, not a path");
    out
}

impl SetupError {
    /// The text of the error.
    pub fn message(&self) -> (r: String)
        ensures
            r@ == setup_text(self@),
    {
        match self {
            SetupError::EmptyPath { name } => {
                let mut out = "fileserver: can't create ".to_owned();
                out.append(name.as_str());
                out.append(" with an empty path");
                out
            },
            SetupError::IndexFileName { name } => index_file_message(
                text::quoted(name.as_str()).as_str(),
            ),
            SetupError::MimeFile { reason } => reason.clone(),
            SetupError::RootDir { path, reason } => {
                let mut out = "fileserver: can't open root ".to_owned();
                out.append(path.as_str());
                out.append(": ");
                out.append(reason.as_str());
                out
            },
        }
    }
}

/// What a backend serves, and how.
pub struct FileBackend {
    /// The top directory.
    pub path: String,
    /// The media types by extension, if they are known.
    pub mimes: Option<MimeDict>,
    /// Whether symbolic links are followed.
    pub follow_links: bool,
    /// The file names that are tried, in order, in place of a directory.
    pub index_files: Vec<String>,
    /// Whether a directory without an index file is listed.
    pub autoindex: bool,
    /// Whether the sizes of an HTML listing are rounded.
    pub autoindex_human_size: bool,
    /// Whether the dates of an HTML listing have a tooltip.
    pub autoindex_human_dates: bool,
}

/// The content of a configuration.
pub struct Config {
    pub path: Seq<char>,
    pub mimes: Option<Map<Seq<char>, Seq<char>>>,
    pub follow_links: bool,
    pub index_files: Seq<Seq<char>>,
    pub autoindex: bool,
    pub autoindex_human_size: bool,
    pub autoindex_human_dates: bool,
}

impl View for FileBackend {
    type V = Config;

    open spec fn view(&self) -> Config {
        Config {
            path: self.path@,
            mimes: match self.mimes {
                Some(m) => Some(m@),
                None => None,
            },
            follow_links: self.follow_links,
            index_files: text::views(self.index_files@),
            autoindex: self.autoindex,
            autoindex_human_size: self.autoindex_human_size,
            autoindex_human_dates: self.autoindex_human_dates,
        }
    }
}

impl Config {
    /// A root that is not empty, and index file names that are bare ones.
    pub open spec fn is_valid(self) -> bool {
        &&& self.path.len() > 0
        &&& path_laws::all_safe(self.index_files)
    }

    /// The configuration that a backend begins with.
    pub open spec fn initial(path: Seq<char>, follow_links: bool) -> Config {
        Config {
            path,
            mimes: None,
            follow_links,
            index_files: seq![],
            autoindex: false,
            autoindex_human_size: true,
            autoindex_human_dates: true,
        }
    }
}

impl FileBackend {
    /// Whether a directory without an index file is listed.
    pub fn autoindex_enabled(&self) -> (r: bool)
        ensures
            r == self@.autoindex,
    {
        self.autoindex
    }
}

/// Checks that `name` is a bare file name: no path, and nothing that could lead
/// out of the directory it is looked up in.
pub fn validate_index_file_name(name: &str) -> (r: Result<(), SetupError>)
    ensures
        match r {
            Ok(_) => path_laws::is_safe_segment(name@),
            Err(e) => !path_laws::is_safe_segment(name@) && e@ == (SetupFault::IndexFileName {
                name: name@,
            }),
        },
{
    proof {
        reveal_strlit(".");
        reveal_strlit("..");
        assert("."@ =~= seq!['.']);
        assert(".."@ =~= seq!['.', '.']);
    }
    if name.is_empty() || text::same(name, ".") || text::same(name, "..") || text::has_char(
        name,
        '/',
    ) {
        return Err(SetupError::IndexFileName { name: name.to_owned() });
    }
    Ok(())
}

/// The file that the table of media types is read from.
#[derive(Debug)]
pub enum MimeFile {
    /// There is no table.
    Off,
    /// This file, if it can be read.
    Optional(String),
    /// This file, which must be readable.
    Required(String),
}

/// The path of a file of media types, and whether it must be readable.
pub open spec fn mime_file(mime_db: Option<Seq<char>>) -> Option<(Seq<char>, bool)> {
    match mime_db {
        None => Some(("/etc/mime.types"@, false)),
        Some(p) => if p.len() == 0 {
            None
        } else {
            Some((p, true))
        },
    }
}

impl View for MimeFile {
    type V = Option<(Seq<char>, bool)>;

    open spec fn view(&self) -> Option<(Seq<char>, bool)> {
        match self {
            MimeFile::Off => None,
            MimeFile::Optional(p) => Some((p@, false)),
            MimeFile::Required(p) => Some((p@, true)),
        }
    }
}

/// A backend that is being set up.
pub struct RootSetup {
    pub backend: FileBackend,
    pub mime_file: MimeFile,
}

/// The configuration after the file of media types was read, or after reading
/// it failed for the given reason.
pub open spec fn mimes_loaded(
    config: Config,
    file: Option<(Seq<char>, bool)>,
    content: Result<Seq<char>, Seq<char>>,
) -> Result<Config, SetupFault> {
    match (file, content) {
        (None, _) => Ok(config),
        (Some(_), Ok(c)) => Ok(Config { mimes: Some(mime::types_of(c)), ..config }),
        (Some((_, true)), Err(reason)) => Err(SetupFault::MimeFile { reason }),
        (Some((_, false)), Err(_)) => Ok(Config { mimes: None, ..config }),
    }
}

impl RootSetup {
    /// Takes what reading the file of media types gave: its content, or the
    /// reason why it cannot be read. Where there is no such file this does
    /// nothing.
    pub fn load_mimes(&mut self, content: Result<String, String>) -> (r: Result<(), SetupError>)
        ensures
            final(self).mime_file == old(self).mime_file,
            old(self).backend@.is_valid() ==> final(self).backend@.is_valid(),
            match mimes_loaded(
                old(self).backend@,
                old(self).mime_file@,
                match content {
                    Ok(c) => Ok(c@),
                    Err(e) => Err(e@),
                },
            ) {
                Ok(config) => r is Ok && final(self).backend@ == config,
                Err(fault) => r matches Err(e) && e@ == fault && final(self).backend@ == old(
                    self,
                ).backend@,
            },
    {
        match &self.mime_file {
            MimeFile::Off => Ok(()),
            MimeFile::Optional(_) => {
                self.backend.mimes = match content {
                    Ok(c) => Some(mime::build_mime_dict(c.as_str())),
                    Err(_) => None,
                };
                Ok(())
            },
            MimeFile::Required(_) => match content {
                Ok(c) => {
                    self.backend.mimes = Some(mime::build_mime_dict(c.as_str()));
                    Ok(())
                },
                Err(reason) => Err(SetupError::MimeFile { reason }),
            },
        }
    }

    /// Whether the root directory has to be opened: requests are then resolved
    /// relative to it, one segment at a time and without following links.
    pub fn needs_root_dir(&self) -> (r: bool)
        ensures
            r == !self.backend@.follow_links,
    {
        !self.backend.follow_links
    }

    /// Ends the setup. `opened` is what opening the root directory gave, where
    /// it had to be opened.
    pub fn finish(self, opened: Result<(), String>) -> (r: Result<file_backend, SetupError>)
        ensures
            match opened {
                Ok(_) => r matches Ok(b) && b.backend == self.backend,
                Err(reason) => if self.backend@.follow_links {
                    r matches Ok(b) && b.backend == self.backend
                } else {
                    r matches Err(e) && e@ == (SetupFault::RootDir {
                        path: self.backend@.path,
                        reason: reason@,
                    })
                },
            },
    {
        if self.backend.follow_links {
            return Ok(file_backend { backend: self.backend });
        }
        match opened {
            Ok(_) => Ok(file_backend { backend: self.backend }),
            Err(reason) => Err(SetupError::RootDir { path: self.backend.path, reason }),
        }
    }
}

/// A backend as its configuration commands see it.
#[allow(non_camel_case_types)]
pub struct file_backend {
    pub backend: FileBackend,
}

impl file_backend {
    /// Begins a new backend with the given name, rooted at `path`.
    ///
    /// `mime_db` is the path of a `mime.types` file. Without it
    /// `/etc/mime.types` is tried, and passed over where it cannot be read; the
    /// empty string switches media types off; any other file must be readable.
    pub fn root(name: &str, path: &str, mime_db: Option<&str>, follow_links: bool) -> (r: Result<
        RootSetup,
        SetupError,
    >)
        ensures
            if path@.len() == 0 {
                r matches Err(e) && e@ == (SetupFault::EmptyPath { name: name@ })
            } else {
                r matches Ok(s) && s.backend@ == Config::initial(path@, follow_links)
                    && s.backend@.is_valid() && s.mime_file@ == mime_file(text::opt_view(mime_db))
            },
    {
        if path.is_empty() {
            return Err(SetupError::EmptyPath { name: name.to_owned() });
        }
        let file = match mime_db {
            None => MimeFile::Optional("/etc/mime.types".to_owned()),
            Some(p) => if p.is_empty() {
                MimeFile::Off
            } else {
                MimeFile::Required(p.to_owned())
            },
        };
        let backend = FileBackend {
            path: path.to_owned(),
            mimes: None,
            follow_links,
            index_files: Vec::new(),
            autoindex: false,
            autoindex_human_size: true,
            autoindex_human_dates: true,
        };
        assert(backend@.index_files =~= seq![]);
        Ok(RootSetup { backend, mime_file: file })
    }

    /// Adds `name` to the file names that are tried, in the order in which they
    /// were added, when a request leads to a directory. It must be a bare file
    /// name.
    pub fn index_file(&mut self, name: &str) -> (r: Result<(), SetupError>)
        ensures
            old(self).backend@.is_valid() ==> final(self).backend@.is_valid(),
            match r {
                Ok(_) => path_laws::is_safe_segment(name@) && final(self).backend@ == (Config {
                    index_files: old(self).backend@.index_files.push(name@),
                    ..old(self).backend@
                }),
                Err(e) => !path_laws::is_safe_segment(name@) && e@ == (SetupFault::IndexFileName {
                    name: name@,
                }) && final(self).backend@ == old(self).backend@,
            },
    {
        validate_index_file_name(name)?;
        self.backend.index_files.push(name.to_owned());
        assert(self.backend@.index_files =~= old(self).backend@.index_files.push(name@));
        Ok(())
    }

    /// Whether a directory without an index file is listed.
    pub fn autoindex(&mut self, on: bool)
        ensures
            final(self).backend@ == (Config { autoindex: on, ..old(self).backend@ }),
            old(self).backend@.is_valid() ==> final(self).backend@.is_valid(),
    {
        self.backend.autoindex = on;
    }

    /// Whether the sizes of an HTML listing are rounded to a form like `4.2K`.
    pub fn autoindex_human_size(&mut self, on: bool)
        ensures
            final(self).backend@ == (Config { autoindex_human_size: on, ..old(self).backend@ }),
            old(self).backend@.is_valid() ==> final(self).backend@.is_valid(),
    {
        self.backend.autoindex_human_size = on;
    }

    /// Whether the dates of an HTML listing have a tooltip with the precise
    /// time.
    pub fn autoindex_human_dates(&mut self, on: bool)
        ensures
            final(self).backend@ == (Config { autoindex_human_dates: on, ..old(self).backend@ }),
            old(self).backend@.is_valid() ==> final(self).backend@.is_valid(),
    {
        self.backend.autoindex_human_dates = on;
    }
}

} // verus!
