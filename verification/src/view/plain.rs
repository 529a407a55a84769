//! The plain renderer: each duplicate set with its key, members and
//! human-readable size, then the summary counters and the timings.

use vstd::prelude::*;

verus! {

use vstd::string::StringExecFns;
use crate::resultset::{ResultSet, filesets_model};
use crate::strutil::dec_str;
use crate::timings::Timer;
use crate::view::{Render, joined_lines, append_lines};

/// What indicatif's HumanBytes prints for a byte count; it depends
/// on the count alone.
pub uninterp spec fn human_bytes_of(n: u64) -> Seq<char>;

/// Relies on indicatif::HumanBytes: renders a byte count in binary
/// units.
#[verifier::external_body]
fn human_bytes(n: u64) -> (s: String)
    ensures
        s@ == human_bytes_of(n),
{
    format!("{}", indicatif::HumanBytes(n))
}

/// One duplicate set as the plain renderer prints it.
pub open spec fn plain_fileset(m: (Seq<char>, Seq<Seq<char>>, usize)) -> Seq<char> {
    m.0 + ":\n"@ + joined_lines(m.1) + "duplicate amount size: "@ + human_bytes_of(m.2 as u64)
        + "\n\n"@
}

pub open spec fn plain_filesets(ms: Seq<(Seq<char>, Seq<Seq<char>>, usize)>) -> Seq<char>
    decreases ms.len(),
{
    if ms.len() == 0 {
        Seq::empty()
    } else {
        plain_filesets(ms.drop_last()) + plain_fileset(ms.last())
    }
}

/// The whole plain output for a result.
pub open spec fn spec_show_plain(rs: ResultSet) -> Seq<char> {
    plain_filesets(filesets_model(rs.fileset@)) + "Summary:\n"@ + "Files amount: "@ + dec_str(
        rs.summary.total_files as nat,
    ) + "\n"@ + "Duplicated files: "@ + dec_str(rs.summary.total_dup_files as nat) + "\n"@
        + "Duplicated file size: "@ + human_bytes_of(rs.summary.file_size_total as u64) + "\n"@
        + "\n"@ + "Timings:\n"@ + "List files: "@ + rs.stop_watch.duration_text(Timer::List)
        + "\n"@ + "Compute files: "@ + rs.stop_watch.duration_text(Timer::Compute) + "\n"@
        + "Overall: "@ + rs.stop_watch.duration_text(Timer::OverAll) + "\n"@
}

pub struct Plain;

/// A plain renderer.
pub fn new() -> Plain {
    Plain {  }
}

impl Render for Plain {
    open spec fn show_spec(&self, rs: ResultSet) -> Seq<char> {
        spec_show_plain(rs)
    }

    fn show(&self, rs: &ResultSet) -> (r: String)
        ensures
            r@ == spec_show_plain(*rs),
    {
        let ghost ms = filesets_model(rs.fileset@);
        let mut out = String::new();
        let mut i: usize = 0;
        let n = rs.fileset.len();
        proof {
            assert(plain_filesets(ms.take(0)) =~= Seq::<char>::empty());
            assert(out@ =~= plain_filesets(ms.take(0)));
        }
        while i < n
            invariant
                i <= n,
                n == rs.fileset@.len(),
                ms == filesets_model(rs.fileset@),
                out@ =~= plain_filesets(ms.take(i as int)),
            decreases n - i,
        {
            let fs = &rs.fileset[i];
            out.append(fs.key.as_str());
            out.append(":\n");
            append_lines(&mut out, &fs.paths);
            out.append("duplicate amount size: ");
            let hb = human_bytes(fs.file_size as u64);
            out.append(hb.as_str());
            out.append("\n\n");
            i = i + 1;
            proof {
                assert(ms.take(i as int).drop_last() =~= ms.take(i as int - 1));
                assert(ms.take(i as int).last() == ms[i as int - 1]);
                assert(out@ =~= plain_filesets(ms.take(i as int)));
            }
        }
        proof {
            assert(ms.take(ms.len() as int) =~= ms);
        }
        out.append("Summary:\n");
        out.append("Files amount: ");
        let tf = crate::strutil::dec_of(rs.summary.total_files);
        out.append(tf.as_str());
        out.append("\n");
        out.append("Duplicated files: ");
        let df = crate::strutil::dec_of(rs.summary.total_dup_files);
        out.append(df.as_str());
        out.append("\n");
        out.append("Duplicated file size: ");
        let st = human_bytes(rs.summary.file_size_total as u64);
        out.append(st.as_str());
        out.append("\n");
        out.append("\n");
        out.append("Timings:\n");
        out.append("List files: ");
        let dl = rs.stop_watch.duration_as_string(Timer::List);
        out.append(dl.as_str());
        out.append("\n");
        out.append("Compute files: ");
        let dc = rs.stop_watch.duration_as_string(Timer::Compute);
        out.append(dc.as_str());
        out.append("\n");
        out.append("Overall: ");
        let da = rs.stop_watch.duration_as_string(Timer::OverAll);
        out.append(da.as_str());
        out.append("\n");
        proof {
            assert(out@ =~= spec_show_plain(*rs));
        }
        out
    }
}

} // verus!
