//! What is written to a cache on disk for a move table: the name of its file
//! and its bytes.

use vstd::prelude::*;
use vstd::string::StringExecFns;

verus! {

/// The lowest `width` bytes of a number, the lowest first.
pub open spec fn little_endian(v: nat, width: nat) -> Seq<u8>
    decreases width,
{
    if width == 0 {
        Seq::empty()
    } else {
        seq![(v % 256) as u8] + little_endian(v / 256, (width - 1) as nat)
    }
}

/// The bytes of a row: the number of its entries in eight bytes, then each
/// entry in four.
pub open spec fn row_bytes(row: Seq<u32>) -> Seq<u8> {
    little_endian(row.len(), 8) + row.map_values(|v: u32| little_endian(v as nat, 4)).flatten()
}

/// The bytes of a table: the number of its rows in eight bytes, then row by
/// row.
pub open spec fn table_bytes(table: Seq<[u32; 18]>) -> Seq<u8> {
    little_endian(table.len(), 8) + table.map_values(|row: [u32; 18]| row_bytes(row@)).flatten()
}

/// Calls `bincode::serialize` on the rows of the table, each as a slice, with
/// `bincode::Infinite` as the limit. It writes a sequence as its length in
/// eight bytes followed by its entries, and a number with the lowest byte
/// first. That the call succeeds is not claimed.
#[verifier::external_body]
fn serialize_rows(table: &Vec<[u32; 18]>) -> (bytes: Option<Vec<u8>>)
    ensures
        bytes matches Some(b) ==> b@ == table_bytes(table@),
{
    let rows: Vec<&[u32]> = table.iter().map(|row| &row[..]).collect();
    bincode::serialize(&rows, bincode::Infinite).ok()
}

/// The path of the file of the table `name` in the cache folder `folder`.
pub open spec fn cache_path(folder: Seq<char>, name: Seq<char>) -> Seq<char> {
    folder + "/"@ + name
}

/// What is to be written for a table: the path of its file in the cache
/// folder, and its bytes, or `None` where the table could not be put into
/// bytes.
pub fn cache_entry(folder: &str, name: &str, table: &Vec<[u32; 18]>) -> (entry: (
    String,
    Option<Vec<u8>>,
))
    ensures
        entry.0@ == cache_path(folder@, name@),
        entry.1 matches Some(b) ==> b@ == table_bytes(table@),
{
    let mut path = String::from_str(folder);
    path.append("/");
    path.append(name);
    (path, serialize_rows(table))
}

} // verus!
