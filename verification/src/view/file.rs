//! The file-list renderer: only the member paths of every duplicate
//! set, one per line, no other text.

use vstd::prelude::*;

verus! {

use crate::resultset::{ResultSet, filesets_model};
use crate::view::{Render, joined_lines, append_lines};

/// The path lines of every duplicate set, in order.
pub open spec fn file_lines(ms: Seq<(Seq<char>, Seq<Seq<char>>, usize)>) -> Seq<char>
    decreases ms.len(),
{
    if ms.len() == 0 {
        Seq::empty()
    } else {
        file_lines(ms.drop_last()) + joined_lines(ms.last().1)
    }
}

/// The whole file-list output for a result.
pub open spec fn spec_show_file(rs: ResultSet) -> Seq<char> {
    file_lines(filesets_model(rs.fileset@))
}

pub struct File;

/// A file-list renderer.
pub fn new() -> File {
    File {  }
}

impl Render for File {
    open spec fn show_spec(&self, rs: ResultSet) -> Seq<char> {
        spec_show_file(rs)
    }

    fn show(&self, rs: &ResultSet) -> (r: String)
        ensures
            r@ == spec_show_file(*rs),
    {
        let ghost ms = filesets_model(rs.fileset@);
        let mut out = String::new();
        let mut i: usize = 0;
        let n = rs.fileset.len();
        proof {
            assert(out@ =~= file_lines(ms.take(0)));
        }
        while i < n
            invariant
                i <= n,
                n == rs.fileset@.len(),
                ms == filesets_model(rs.fileset@),
                out@ =~= file_lines(ms.take(i as int)),
            decreases n - i,
        {
            append_lines(&mut out, &rs.fileset[i].paths);
            i = i + 1;
            proof {
                assert(ms.take(i as int).drop_last() =~= ms.take(i as int - 1));
                assert(ms.take(i as int).last() == ms[i as int - 1]);
                assert(out@ =~= file_lines(ms.take(i as int)));
            }
        }
        proof {
            assert(ms.take(ms.len() as int) =~= ms);
            assert(out@ =~= spec_show_file(*rs));
        }
        out
    }
}

} // verus!
