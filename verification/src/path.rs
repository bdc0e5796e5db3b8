//! From the URL of a request to a path below the root, and back to a URL.
use vstd::prelude::*;
use vstd::string::*;
use vstd::utf8::*;

use crate::escape;
use crate::text;

verus! {

/// What is wrong with a percent-encoded path segment.
#[derive(Clone, Copy, Debug, PartialEq, Eq, Structural)]
pub enum PercentFault {
    /// A `%` that two hexadecimal digits do not follow.
    Malformed,
    /// An escape that stands for `/` or for the NUL byte.
    Forbidden,
    /// The decoded bytes are not UTF-8.
    NotUtf8,
}

/// A path segment that cannot be decoded.
#[derive(Debug)]
pub struct PercentError {
    pub fault: PercentFault,
    pub segment: String,
}

/// The value of a hexadecimal digit.
pub open spec fn hex_value(b: u8) -> Option<int> {
    if 0x30 <= b <= 0x39 {
        Some(b - 0x30)
    } else if 0x41 <= b <= 0x46 {
        Some(b - 0x41 + 10)
    } else if 0x61 <= b <= 0x66 {
        Some(b - 0x61 + 10)
    } else {
        None
    }
}

/// The byte that the escape at the start of `b` stands for.
pub open spec fn escape_value(b: Seq<u8>) -> Result<u8, PercentFault> {
    if b.len() < 3 || hex_value(b[1]) is None || hex_value(b[2]) is None {
        Err(PercentFault::Malformed)
    } else {
        let v = hex_value(b[1])->0 * 16 + hex_value(b[2])->0;
        if v == 0x2f || v == 0 {
            Err(PercentFault::Forbidden)
        } else {
            Ok(v as u8)
        }
    }
}

/// `done` followed by the outcome of decoding the rest.
pub open spec fn after(done: Seq<u8>, rest: Result<Seq<u8>, PercentFault>) -> Result<
    Seq<u8>,
    PercentFault,
> {
    match rest {
        Ok(bytes) => Ok(done + bytes),
        Err(fault) => Err(fault),
    }
}

/// The bytes that `b` stands for: each escape gives one byte, every other byte
/// stands for itself. The first escape that is at fault decides the fault.
pub open spec fn percent_decode(b: Seq<u8>) -> Result<Seq<u8>, PercentFault>
    decreases b.len(),
{
    if b.len() == 0 {
        Ok(seq![])
    } else if b[0] == 0x25 {
        match escape_value(b) {
            Ok(v) => after(seq![v], percent_decode(b.skip(3))),
            Err(fault) => Err(fault),
        }
    } else {
        after(seq![b[0]], percent_decode(b.skip(1)))
    }
}

/// The text that the path segment `s` stands for.
pub open spec fn decoded_segment(s: Seq<char>) -> Result<Seq<char>, PercentFault> {
    match percent_decode(encode_utf8(s)) {
        Ok(bytes) => if valid_utf8(bytes) {
            Ok(decode_utf8(bytes))
        } else {
            Err(PercentFault::NotUtf8)
        },
        Err(fault) => Err(fault),
    }
}

/// The value of a hexadecimal digit.
fn hex(b: u8) -> (r: Option<u8>)
    ensures
        r matches Some(v) ==> hex_value(b) == Some(v as int) && v < 16,
        r is None ==> hex_value(b) is None,
{
    if 0x30 <= b && b <= 0x39 {
        Some(b - 0x30)
    } else if 0x41 <= b && b <= 0x46 {
        Some(b - 0x41 + 10)
    } else if 0x61 <= b && b <= 0x66 {
        Some(b - 0x61 + 10)
    } else {
        None
    }
}

/// Percent-decodes one path segment. An escape is `%` and two hexadecimal
/// digits. One that stands for `/` or for the NUL byte is refused, so that no
/// segment can bring in a path separator or an end of string.
pub fn percent_decode_segment(s: &str) -> (r: Result<String, PercentError>)
    ensures
        r matches Ok(v) ==> decoded_segment(s@) == Ok::<Seq<char>, PercentFault>(v@),
        r matches Err(e) ==> decoded_segment(s@) == Err::<Seq<char>, PercentFault>(e.fault)
            && e.segment@ == s@,
{
    let bytes = s.as_bytes();
    let n: usize = bytes.len();
    let mut out: Vec<u8> = Vec::with_capacity(n);
    let mut i: usize = 0;
    assert(bytes@.skip(0) =~= bytes@);
    assert(after(out@, percent_decode(bytes@)) == percent_decode(bytes@)) by {
        if let Ok(rest) = percent_decode(bytes@) {
            assert(out@ + rest =~= rest);
        }
    }
    while i < n
        invariant
            n == bytes@.len(),
            bytes@ == encode_utf8(s@),
            i <= n,
            percent_decode(bytes@) == after(out@, percent_decode(bytes@.skip(i as int))),
        decreases n - i,
    {
        let ghost rest = bytes@.skip(i as int);
        if bytes[i] == 0x25 {
            if n - i < 3 {
                return Err(
                    PercentError { fault: PercentFault::Malformed, segment: s.to_owned() },
                );
            }
            let high = hex(bytes[i + 1]);
            let low = hex(bytes[i + 2]);
            assert(rest[1] == bytes@[i + 1]);
            assert(rest[2] == bytes@[i + 2]);
            match (high, low) {
                (Some(h), Some(l)) => {
                    let byte: u8 = h * 16 + l;
                    if byte == 0x2f || byte == 0 {
                        return Err(
                            PercentError { fault: PercentFault::Forbidden, segment: s.to_owned() },
                        );
                    }
                    proof {
                        let more = percent_decode(rest.skip(3));
                        assert(rest.skip(3) =~= bytes@.skip(i + 3));
                        if let Ok(tail) = more {
                            assert(out@ + (seq![byte] + tail) =~= out@.push(byte) + tail);
                        }
                    }
                    out.push(byte);
                    i += 3;
                },
                _ => {
                    return Err(
                        PercentError { fault: PercentFault::Malformed, segment: s.to_owned() },
                    );
                },
            }
        } else {
            proof {
                let more = percent_decode(rest.skip(1));
                assert(rest.skip(1) =~= bytes@.skip(i + 1));
                if let Ok(tail) = more {
                    assert(out@ + (seq![rest[0]] + tail) =~= out@.push(rest[0]) + tail);
                }
            }
            out.push(bytes[i]);
            i += 1;
        }
    }
    assert(bytes@.skip(n as int) =~= seq![]);
    assert(out@ + seq![] =~= out@);
    match text::string_from_utf8(out) {
        Some(v) => Ok(v),
        None => Err(PercentError { fault: PercentFault::NotUtf8, segment: s.to_owned() }),
    }
}

/// The part of a request URL before its query string, if it has one.
pub open spec fn without_query(url: Seq<char>) -> Seq<char> {
    url.take(text::find(url, '?'))
}

/// What follows the first `?` of a request URL, if there is one.
pub open spec fn query_of(url: Seq<char>) -> Option<Seq<char>> {
    if url.contains('?') {
        Some(url.skip(text::find(url, '?') + 1))
    } else {
        None
    }
}

/// The segments that the pieces of a URL path resolve to. Empty pieces and `.`
/// are passed over; `..` takes the last segment away again, and does nothing
/// where there is none. The first piece that cannot be decoded decides the
/// error.
pub open spec fn resolve(pieces: Seq<Seq<char>>) -> Result<
    Seq<Seq<char>>,
    (PercentFault, Seq<char>),
>
    decreases pieces.len(),
{
    if pieces.len() == 0 {
        Ok(seq![])
    } else {
        match resolve(pieces.drop_last()) {
            Ok(done) => if pieces.last().len() == 0 {
                Ok(done)
            } else {
                match decoded_segment(pieces.last()) {
                    Ok(name) => Ok(enter(done, name)),
                    Err(fault) => Err((fault, pieces.last())),
                }
            },
            Err(e) => Err(e),
        }
    }
}

/// The segments after one more decoded segment.
pub open spec fn enter(done: Seq<Seq<char>>, name: Seq<char>) -> Seq<Seq<char>> {
    if name == seq!['.'] {
        done
    } else if name == seq!['.', '.'] {
        if done.len() == 0 {
            done
        } else {
            done.drop_last()
        }
    } else {
        done.push(name)
    }
}

/// The segments that a URL path resolves to.
pub open spec fn clamped(url: Seq<char>) -> Result<Seq<Seq<char>>, (PercentFault, Seq<char>)> {
    resolve(text::split(url, '/'))
}

/// Each segment after a `/`.
pub open spec fn below(segments: Seq<Seq<char>>) -> Seq<char>
    decreases segments.len(),
{
    if segments.len() == 0 {
        seq![]
    } else {
        below(segments.drop_last()) + seq!['/'] + segments.last()
    }
}

/// The absolute directory path made of `segments`, with a `/` at both ends.
pub open spec fn directory_path(segments: Seq<Seq<char>>) -> Seq<char>
    decreases segments.len(),
{
    if segments.len() == 0 {
        seq!['/']
    } else {
        directory_path(segments.drop_last()) + segments.last() + seq!['/']
    }
}

/// Each segment percent-encoded.
pub open spec fn escaped_segments(segments: Seq<Seq<char>>) -> Seq<Seq<char>> {
    Seq::new(segments.len(), |i: int| escape::url_escaped(segments[i]))
}

/// Strips the query string, if any, from a request URL.
pub fn strip_query(url: &str) -> (r: &str)
    ensures
        r@ == without_query(url@),
{
    let n: usize = find_char(url, '?');
    url.substring_char(0, n)
}

/// What follows the first `?` of a request URL.
pub fn query(url: &str) -> (r: Option<&str>)
    ensures
        text::opt_view(r) == query_of(url@),
{
    let n: usize = find_char(url, '?');
    let len: usize = url.unicode_len();
    proof {
        text::lemma_find(url@, '?');
    }
    if n < len {
        assert(url@.subrange(n + 1, len as int) =~= url@.skip(n + 1));
        Some(url.substring_char(n + 1, len))
    } else {
        None
    }
}

/// The position of the first `c` in `s`, counted in characters.
fn find_char(s: &str, c: char) -> (r: usize)
    ensures
        r == text::find(s@, c),
        r <= s@.len(),
{
    let list = text::chars(s);
    let n: usize = list.len();
    for i in 0..n
        invariant
            n == list@.len(),
            list@ == s@,
            forall|j: int| 0 <= j < i ==> s@[j] != c,
    {
        if list[i] == c {
            proof {
                text::lemma_find_unique(s@, c, i as int);
            }
            return i;
        }
    }
    proof {
        text::lemma_find_unique(s@, c, n as int);
    }
    n
}

/// Splits a URL path into the percent-decoded segments of a file lookup.
/// `..`, encoded or not, never leads above the root: this is lexical only, and
/// says nothing about symbolic links.
pub fn clamp_segments(url: &str) -> (r: Result<Vec<String>, PercentError>)
    ensures
        r matches Ok(v) ==> clamped(url@) == Ok::<Seq<Seq<char>>, (PercentFault, Seq<char>)>(
            text::views(v@),
        ),
        r matches Err(e) ==> clamped(url@) == Err::<Seq<Seq<char>>, (PercentFault, Seq<char>)>(
            (e.fault, e.segment@),
        ),
{
    let pieces = text::split_at_each(url, '/');
    let n: usize = pieces.len();
    let mut components: Vec<String> = Vec::new();
    let ghost all = text::views(pieces@);
    assert(all.take(0) =~= seq![]);
    assert(text::views(components@) =~= seq![]);
    for i in 0..n
        invariant
            n == pieces@.len(),
            all == text::views(pieces@),
            all == text::split(url@, '/'),
            resolve(all.take(i as int)) == Ok::<Seq<Seq<char>>, (PercentFault, Seq<char>)>(
                text::views(components@),
            ),
    {
        let raw = pieces[i].as_str();
        proof {
            assert(all.take(i + 1).drop_last() =~= all.take(i as int));
            assert(all.take(i + 1).last() == raw@);
            reveal_strlit(".");
            reveal_strlit("..");
            assert("."@ =~= seq!['.']);
            assert(".."@ =~= seq!['.', '.']);
        }
        if !raw.is_empty() {
            match percent_decode_segment(raw) {
                Err(e) => {
                    proof {
                        lemma_resolve_error(all, i + 1);
                    }
                    return Err(e);
                },
                Ok(decoded) => {
                    let ghost done = text::views(components@);
                    if text::same(decoded.as_str(), ".") {
                    } else if text::same(decoded.as_str(), "..") {
                        components.pop();
                        assert(text::views(components@) =~= enter(done, decoded@));
                    } else {
                        components.push(decoded);
                        assert(text::views(components@) =~= enter(done, decoded@));
                    }
                },
            }
        }
    }
    assert(all.take(n as int) =~= all);
    Ok(components)
}

/// An error in the first pieces is the error of all of them.
proof fn lemma_resolve_error(pieces: Seq<Seq<char>>, k: int)
    requires
        0 <= k <= pieces.len(),
        resolve(pieces.take(k)) is Err,
    ensures
        resolve(pieces) == resolve(pieces.take(k)),
    decreases pieces.len(),
{
    if k < pieces.len() {
        assert(pieces.drop_last().take(k) =~= pieces.take(k));
        lemma_resolve_error(pieces.drop_last(), k);
    } else {
        assert(pieces.take(k) =~= pieces);
    }
}

/// Joins decoded segments onto the root path.
pub fn join_segments(root_path: &str, segments: &[String]) -> (r: String)
    requires
        root_path@.len() > 0,
    ensures
        r@ == root_path@ + below(text::views(segments@)),
{
    let mut out = root_path.to_owned();
    let n: usize = segments.len();
    let ghost all = text::views(segments@);
    assert(all.take(0) =~= seq![]);
    assert(out@ =~= root_path@ + below(all.take(0)));
    for i in 0..n
        invariant
            n == segments@.len(),
            all == text::views(segments@),
            out@ == root_path@ + below(all.take(i as int)),
    {
        proof {
            assert(all.take(i + 1).drop_last() =~= all.take(i as int));
        }
        out.push('/');
        out.append(segments[i].as_str());
        assert(out@ =~= root_path@ + below(all.take(i + 1)));
    }
    assert(all.take(n as int) =~= all);
    out
}

/// The path that a URL path stands for below `root_path`.
pub fn assemble_file_path(root_path: &str, url: &str) -> (r: Result<String, PercentError>)
    requires
        root_path@.len() > 0,
    ensures
        match clamped(url@) {
            Ok(segments) => r matches Ok(path) && path@ == root_path@ + below(segments),
            Err((fault, segment)) => r matches Err(e) && e.fault == fault && e.segment@ == segment,
        },
{
    match clamp_segments(url) {
        Ok(segments) => Ok(join_segments(root_path, segments.as_slice())),
        Err(e) => Err(e),
    }
}

/// Re-encodes decoded segments into a normalized absolute URL path with a `/`
/// at the end, for use in a redirect.
pub fn normalized_url_path(segments: &[String]) -> (r: String)
    ensures
        r@ == directory_path(escaped_segments(text::views(segments@))),
{
    let mut out = String::new();
    out.push('/');
    let n: usize = segments.len();
    let ghost all = escaped_segments(text::views(segments@));
    assert(all.take(0) =~= seq![]);
    assert(out@ =~= directory_path(all.take(0)));
    for i in 0..n
        invariant
            n == segments@.len(),
            all == escaped_segments(text::views(segments@)),
            out@ == directory_path(all.take(i as int)),
    {
        proof {
            assert(all.take(i + 1).drop_last() =~= all.take(i as int));
        }
        let name = escape::url_escape(segments[i].as_str());
        out.append(name.as_str());
        out.push('/');
        assert(out@ =~= directory_path(all.take(i + 1)));
    }
    assert(all.take(n as int) =~= all);
    out
}

/// The directory path made of decoded segments, for display only.
pub fn decoded_url_path(segments: &[String]) -> (r: String)
    ensures
        r@ == directory_path(text::views(segments@)),
{
    let mut out = String::new();
    out.push('/');
    let n: usize = segments.len();
    let ghost all = text::views(segments@);
    assert(all.take(0) =~= seq![]);
    assert(out@ =~= directory_path(all.take(0)));
    for i in 0..n
        invariant
            n == segments@.len(),
            all == text::views(segments@),
            out@ == directory_path(all.take(i as int)),
    {
        proof {
            assert(all.take(i + 1).drop_last() =~= all.take(i as int));
        }
        out.append(segments[i].as_str());
        out.push('/');
        assert(out@ =~= directory_path(all.take(i + 1)));
    }
    assert(all.take(n as int) =~= all);
    out
}

/// The target of the redirect that adds the `/` at the end of a directory's
/// URL: the normalized path, and the query string of the request unchanged.
pub open spec fn location(segments: Seq<Seq<char>>, query: Option<Seq<char>>) -> Seq<char> {
    let path = directory_path(escaped_segments(segments));
    match query {
        Some(q) => path + seq!['?'] + q,
        None => path,
    }
}

/// The target of the redirect to a directory's URL with its `/` at the end.
/// It is rebuilt from the decoded segments rather than taken from the request,
/// so that it always begins with exactly one `/` and stays on this host.
pub fn redirect_location(segments: &[String], query: Option<&str>) -> (r: String)
    ensures
        r@ == location(text::views(segments@), text::opt_view(query)),
{
    let mut out = normalized_url_path(segments);
    if let Some(q) = query {
        let ghost path = out@;
        out.push('?');
        out.append(q);
        assert(out@ =~= path + seq!['?'] + q@);
    }
    out
}

/// The text of the error for a fault, given the segment in quotes.
pub open spec fn fault_message(fault: PercentFault, quoted: Seq<char>) -> Seq<char> {
    match fault {
        PercentFault::Malformed => "fileserver: malformed percent-encoding in "@ + quoted,
        PercentFault::Forbidden => "fileserver: invalid percent-encoded byte in "@ + quoted,
        PercentFault::NotUtf8 => "fileserver: invalid UTF-8 in "@ + quoted,
    }
}

/// The text of the error for a fault, given the segment in quotes.
pub fn percent_message(fault: PercentFault, quoted: &str) -> (r: String)
    ensures
        r@ == fault_message(fault, quoted@),
{
    let mut out = match fault {
        PercentFault::Malformed => "fileserver: malformed percent-encoding in ".to_owned(),
        PercentFault::Forbidden => "fileserver: invalid percent-encoded byte in ".to_owned(),
        PercentFault::NotUtf8 => "fileserver: invalid UTF-8 in ".to_owned(),
    };
    out.append(quoted);
    out
}

impl PercentError {
    /// The text of the error.
    pub fn message(&self) -> (r: String)
        ensures
            r@ == fault_message(self.fault, text::quoted_text(self.segment@)),
    {
        percent_message(self.fault, text::quoted(self.segment.as_str()).as_str())
    }
}

/// The last component of a path that is neither empty nor `.`.
pub open spec fn last_component(pieces: Seq<Seq<char>>) -> Option<Seq<char>>
    decreases pieces.len(),
{
    if pieces.len() == 0 {
        None
    } else if pieces.last().len() == 0 || pieces.last() == seq!['.'] {
        last_component(pieces.drop_last())
    } else {
        Some(pieces.last())
    }
}

/// The position of the last `c` in `s`, or -1 if there is none.
pub open spec fn find_last(s: Seq<char>, c: char) -> int
    decreases s.len(),
{
    if s.len() == 0 {
        -1
    } else if s.last() == c {
        s.len() - 1
    } else {
        find_last(s.drop_last(), c)
    }
}

/// The extension of a file name: what follows its last dot, unless that dot
/// begins the name.
pub open spec fn name_extension(name: Seq<char>) -> Option<Seq<char>> {
    if find_last(name, '.') <= 0 || name == seq!['.', '.'] {
        None
    } else {
        Some(name.skip(find_last(name, '.') + 1))
    }
}

/// The extension of the file that a path names, if the path names one.
pub open spec fn path_extension(path: Seq<char>) -> Option<Seq<char>> {
    match last_component(text::split(path, '/')) {
        Some(name) => name_extension(name),
        None => None,
    }
}

/// The extension of the file that a path names.
pub fn extension(path: &str) -> (r: Option<String>)
    ensures
        match r {
            Some(ext) => path_extension(path@) == Some(ext@),
            None => path_extension(path@) is None,
        },
{
    let pieces = text::split_at_each(path, '/');
    let ghost all = text::views(pieces@);
    let mut n: usize = pieces.len();
    assert(all.take(n as int) =~= all);
    while n > 0
        invariant
            n <= pieces@.len(),
            all == text::views(pieces@),
            all == text::split(path@, '/'),
            last_component(all) == last_component(all.take(n as int)),
        decreases n,
    {
        let name = pieces[n - 1].as_str();
        proof {
            assert(all.take(n as int).last() == name@);
            assert(all.take(n as int).drop_last() =~= all.take(n - 1));
            reveal_strlit(".");
            assert("."@ =~= seq!['.']);
        }
        if !name.is_empty() && !text::same(name, ".") {
            return extension_of_name(name);
        }
        n -= 1;
    }
    None
}

/// The extension of a file name.
fn extension_of_name(name: &str) -> (r: Option<String>)
    ensures
        match r {
            Some(ext) => name_extension(name@) == Some(ext@),
            None => name_extension(name@) is None,
        },
{
    proof {
        reveal_strlit("..");
        assert(".."@ =~= seq!['.', '.']);
    }
    if text::same(name, "..") {
        return None;
    }
    let list = text::chars(name);
    let len: usize = list.len();
    let mut n: usize = len;
    assert(name@.take(len as int) =~= name@);
    while n > 0
        invariant
            n <= len,
            len == list@.len(),
            list@ == name@,
            name@ != seq!['.', '.'],
            find_last(name@, '.') == find_last(name@.take(n as int), '.'),
        decreases n,
    {
        assert(name@.take(n as int).last() == name@[n - 1]);
        assert(name@.take(n as int).drop_last() =~= name@.take(n - 1));
        if list[n - 1] == '.' {
            if n == 1 {
                return None;
            }
            let ext = text::string_of(&list, n, len);
            assert(ext@ =~= name@.skip(n as int));
            return Some(ext);
        }
        n -= 1;
    }
    None
}

} // verus!
