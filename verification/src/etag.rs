//! Entity tags.
use std::collections::hash_map::DefaultHasher;
use std::hash::Hasher;

use vstd::bytes::*;
use vstd::prelude::*;
use vstd::std_specs::hash::*;
use vstd::string::*;

use crate::text;
use crate::time::Timestamp;

verus! {

/// What is hashed for a modification time: whether there is one, then its
/// seconds and its nanoseconds.
pub open spec fn modified_bytes(modified: Option<Timestamp>) -> Seq<Seq<u8>> {
    match modified {
        Some(m) => seq![
            spec_u64_to_le_bytes(1),
            spec_u64_to_le_bytes(m.secs as u64),
            spec_u32_to_le_bytes(m.nanos),
        ],
        None => seq![spec_u64_to_le_bytes(0)],
    }
}

/// What is hashed for a file.
pub open spec fn file_bytes(inode: u64, size: u64, modified: Option<Timestamp>) -> Seq<Seq<u8>> {
    seq![spec_u64_to_le_bytes(inode), spec_u64_to_le_bytes(size)] + modified_bytes(modified)
}

/// A hash as an entity tag: the decimal number in double quotes.
pub open spec fn tag(hash: u64) -> Seq<char> {
    seq!['"'] + text::digits(hash as nat) + seq!['"']
}

/// The entity tag of a file.
pub open spec fn file_tag(inode: u64, size: u64, modified: Option<Timestamp>) -> Seq<char> {
    tag(DefaultHasher::spec_finish(file_bytes(inode, size, modified)))
}

/// A hash as an entity tag.
pub fn etag_text(hash: u64) -> (r: String)
    ensures
        r@ == tag(hash),
{
    let number = text::decimal(hash);
    let mut out = String::new();
    out.push('"');
    out.append(number.as_str());
    out.push('"');
    assert(out@ =~= tag(hash));
    out
}

/// The entity tag of a file: a hash of its inode, its size and its modification
/// time, if it has one.
pub fn generate_etag(inode: u64, size: u64, modified: Option<Timestamp>) -> (r: String)
    ensures
        r@ == file_tag(inode, size, modified),
{
    let mut h = DefaultHasher::new();
    h.write(u64_to_le_bytes(inode).as_slice());
    h.write(u64_to_le_bytes(size).as_slice());
    match modified {
        Some(m) => {
            h.write(u64_to_le_bytes(1).as_slice());
            h.write(u64_to_le_bytes(m.secs as u64).as_slice());
            h.write(u32_to_le_bytes(m.nanos).as_slice());
        },
        None => {
            h.write(u64_to_le_bytes(0).as_slice());
        },
    }
    assert(h@ =~= file_bytes(inode, size, modified));
    etag_text(h.finish())
}

} // verus!
