//! What tells apart two points in time, and two versions of a file.
use std::collections::hash_map::DefaultHasher;

use vstd::bytes::*;
use vstd::prelude::*;
use vstd::std_specs::hash::*;

use crate::etag;
use crate::text;
use crate::time::Timestamp;

verus! {

/// The nanoseconds from the start of 1970 to a point in time.
pub open spec fn since_1970(at: Timestamp) -> int {
    at.secs * 1_000_000_000 + at.nanos
}

/// One point in time is not before another exactly if as many nanoseconds have
/// passed. There is a calendar date from one fixed second up to another.
pub proof fn law_time_goes_by_nanoseconds(a: Timestamp, b: Timestamp)
    ensures
        a.nanos < 1_000_000_000 && b.nanos < 1_000_000_000 ==> (a.not_before(b) <==> since_1970(a)
            >= since_1970(b)),
        a.has_date() <==> -8_334_601_228_800 <= a.secs <= 8_210_266_876_799 && a.nanos
            < 1_000_000_000,
        a.not_before(a),
        a.not_before(b) || b.not_before(a),
{
}

/// A tag is the hash as a decimal number between double quotes.
pub proof fn law_tag_is_a_quoted_number(hash: u64)
    ensures
        etag::tag(hash) == "\""@ + text::digits(hash as nat) + "\""@,
{
    reveal_strlit("\"");
    assert("\""@ =~= seq!['"']);
}

/// The tag of a file is the hash of its inode, its size, and its modification
/// time: whether there is one, then its seconds and its nanoseconds.
pub proof fn law_tag_of_a_file(inode: u64, size: u64, m: Timestamp)
    ensures
        etag::file_tag(inode, size, None) == etag::tag(
            DefaultHasher::spec_finish(
                seq![
                    spec_u64_to_le_bytes(inode),
                    spec_u64_to_le_bytes(size),
                    spec_u64_to_le_bytes(0),
                ],
            ),
        ),
        etag::file_tag(inode, size, Some(m)) == etag::tag(
            DefaultHasher::spec_finish(
                seq![
                    spec_u64_to_le_bytes(inode),
                    spec_u64_to_le_bytes(size),
                    spec_u64_to_le_bytes(1),
                    spec_u64_to_le_bytes(m.secs as u64),
                    spec_u32_to_le_bytes(m.nanos),
                ],
            ),
        ),
{
    assert(etag::file_bytes(inode, size, None) =~= seq![
        spec_u64_to_le_bytes(inode),
        spec_u64_to_le_bytes(size),
        spec_u64_to_le_bytes(0),
    ]);
    assert(etag::file_bytes(inode, size, Some(m)) =~= seq![
        spec_u64_to_le_bytes(inode),
        spec_u64_to_le_bytes(size),
        spec_u64_to_le_bytes(1),
        spec_u64_to_le_bytes(m.secs as u64),
        spec_u32_to_le_bytes(m.nanos),
    ]);
}

/// Two files that differ in inode, size or modification time, or of which only
/// one has such a time, are hashed differently.
pub proof fn law_different_files_are_hashed_differently(
    inode: u64,
    size: u64,
    modified: Option<Timestamp>,
    other_inode: u64,
    other_size: u64,
    other_modified: Option<Timestamp>,
)
    ensures
        etag::file_bytes(inode, size, modified) == etag::file_bytes(
            other_inode,
            other_size,
            other_modified,
        ) ==> inode == other_inode && size == other_size && modified == other_modified,
{
    let a = etag::file_bytes(inode, size, modified);
    let b = etag::file_bytes(other_inode, other_size, other_modified);
    if a == b {
        lemma_auto_spec_u64_to_from_le_bytes();
        lemma_auto_spec_u32_to_from_le_bytes();
        assert(a[0] == spec_u64_to_le_bytes(inode) && b[0] == spec_u64_to_le_bytes(other_inode));
        assert(a[1] == spec_u64_to_le_bytes(size) && b[1] == spec_u64_to_le_bytes(other_size));
        match (modified, other_modified) {
            (Some(m), Some(o)) => {
                assert(a[3] == spec_u64_to_le_bytes(m.secs as u64));
                assert(b[3] == spec_u64_to_le_bytes(o.secs as u64));
                assert(a[4] == spec_u32_to_le_bytes(m.nanos));
                assert(b[4] == spec_u32_to_le_bytes(o.nanos));
                let x = m.secs;
                let y = o.secs;
                assert(x == y) by (bit_vector)
                    requires
                        x as u64 == y as u64,
                ;
            },
            (Some(_), None) => {
                assert(a.len() == 5 && b.len() == 3);
            },
            (None, Some(_)) => {
                assert(a.len() == 3 && b.len() == 5);
            },
            (None, None) => {},
        }
    }
}

} // verus!
