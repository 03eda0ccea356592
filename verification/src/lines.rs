//! Records of a newline-delimited byte file.

use crate::join::{split, split_on, views};
use vstd::prelude::*;

verus! {

/// The byte that ends a record.
pub const NEWLINE: u8 = 10;

/// The records of `content`: the pieces between newline bytes, where a
/// newline at the very end closes the last record and opens no further one.
/// Empty content holds no record.
pub open spec fn lines_of(content: Seq<u8>) -> Seq<Seq<u8>> {
    if content.len() == 0 {
        Seq::empty()
    } else if content.last() == NEWLINE {
        split_on(content, NEWLINE).drop_last()
    } else {
        split_on(content, NEWLINE)
    }
}

/// Cuts the content of a file into its records. A record may hold any bytes
/// but the newline; the newline that ends a record is dropped, and the last
/// record needs none.
pub fn split_lines(content: &[u8]) -> (lines: Vec<Vec<u8>>)
    ensures
        views(lines@) == lines_of(content@),
{
    if content.len() == 0 {
        return Vec::new();
    }
    let mut lines = split(content, NEWLINE);
    if content[content.len() - 1] == NEWLINE {
        lines.pop();
    }
    lines
}

} // verus!
