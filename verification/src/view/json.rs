//! The JSON renderer: one object holding the summary counters and
//! the duplicate sets, with every path properly escaped.

use vstd::prelude::*;

verus! {

use vstd::string::StringExecFns;
use crate::resultset::{ResultSet, filesets_model};
use crate::strutil::{dec_str, dec_of, json_escaped, json_escape};
use crate::view::Render;

/// A string as it appears in JSON: escaped, inside quotes.
pub open spec fn json_quoted(s: Seq<char>) -> Seq<char> {
    "\""@ + json_escaped(s) + "\""@
}

/// A JSON array body of strings, comma-separated.
pub open spec fn json_strings(ps: Seq<Seq<char>>) -> Seq<char>
    decreases ps.len(),
{
    if ps.len() == 0 {
        Seq::empty()
    } else if ps.len() == 1 {
        json_quoted(ps[0])
    } else {
        json_strings(ps.drop_last()) + ","@ + json_quoted(ps.last())
    }
}

/// One duplicate set as a JSON object.
pub open spec fn json_fileset(m: (Seq<char>, Seq<Seq<char>>, usize)) -> Seq<char> {
    "{\"key\":"@ + json_quoted(m.0) + ",\"paths\":["@ + json_strings(m.1) + "],\"file_size\":"@
        + dec_str(m.2 as nat) + "}"@
}

/// A JSON array body of duplicate sets, comma-separated.
pub open spec fn json_filesets(ms: Seq<(Seq<char>, Seq<Seq<char>>, usize)>) -> Seq<char>
    decreases ms.len(),
{
    if ms.len() == 0 {
        Seq::empty()
    } else if ms.len() == 1 {
        json_fileset(ms[0])
    } else {
        json_filesets(ms.drop_last()) + ","@ + json_fileset(ms.last())
    }
}

/// The whole JSON output for a result: a `summary` object with the
/// three counters and a `data` array with one object per duplicate
/// set.
pub open spec fn spec_show_json(rs: ResultSet) -> Seq<char> {
    "{\"summary\":{\"file_size_total\":"@ + dec_str(rs.summary.file_size_total as nat)
        + ",\"total_dup_files\":"@ + dec_str(rs.summary.total_dup_files as nat)
        + ",\"total_files\":"@ + dec_str(rs.summary.total_files as nat) + "},\"data\":["@
        + json_filesets(filesets_model(rs.fileset@)) + "]}"@
}

/// Appends a path list as a JSON array body.
fn append_json_strings(out: &mut String, paths: &Vec<String>)
    ensures
        final(out)@ == old(out)@ + json_strings(crate::strutil::views_of(paths@)),
{
    let ghost pv = crate::strutil::views_of(paths@);
    let mut j: usize = 0;
    proof {
        assert(old(out)@ + json_strings(pv.take(0)) =~= old(out)@);
    }
    loop
        invariant
            j <= paths@.len(),
            pv == crate::strutil::views_of(paths@),
            out@ =~= old(out)@ + json_strings(pv.take(j as int)),
        decreases paths@.len() - j,
    {
        if j == paths.len() {
            proof {
                assert(pv.take(pv.len() as int) =~= pv);
            }
            return ;
        }
        if j > 0 {
            out.append(",");
        }
        out.append("\"");
        let esc = json_escape(paths[j].as_str());
        out.append(esc.as_str());
        out.append("\"");
        j = j + 1;
        proof {
            assert(pv.take(j as int).drop_last() =~= pv.take(j as int - 1));
            assert(pv.take(j as int).last() == paths@[j as int - 1]@);
            assert(out@ =~= old(out)@ + json_strings(pv.take(j as int)));
        }
    }
}

pub struct JSON;

/// A JSON renderer.
pub fn new() -> JSON {
    JSON {  }
}

impl Render for JSON {
    open spec fn show_spec(&self, rs: ResultSet) -> Seq<char> {
        spec_show_json(rs)
    }

    #[verifier::rlimit(60)]
    fn show(&self, rs: &ResultSet) -> (r: String)
        ensures
            r@ == spec_show_json(*rs),
    {
        let ghost ms = filesets_model(rs.fileset@);
        let mut out = String::new();
        out.append("{\"summary\":{\"file_size_total\":");
        let s1 = dec_of(rs.summary.file_size_total);
        out.append(s1.as_str());
        out.append(",\"total_dup_files\":");
        let s2 = dec_of(rs.summary.total_dup_files);
        out.append(s2.as_str());
        out.append(",\"total_files\":");
        let s3 = dec_of(rs.summary.total_files);
        out.append(s3.as_str());
        out.append("},\"data\":[");
        let ghost head = out@;
        let mut i: usize = 0;
        let n = rs.fileset.len();
        proof {
            assert(head + json_filesets(ms.take(0)) =~= head);
        }
        while i < n
            invariant
                i <= n,
                n == rs.fileset@.len(),
                ms == filesets_model(rs.fileset@),
                out@ =~= head + json_filesets(ms.take(i as int)),
            decreases n - i,
        {
            if i > 0 {
                out.append(",");
            }
            let fs = &rs.fileset[i];
            out.append("{\"key\":");
            out.append("\"");
            let key = json_escape(fs.key.as_str());
            out.append(key.as_str());
            out.append("\"");
            out.append(",\"paths\":[");
            append_json_strings(&mut out, &fs.paths);
            out.append("],\"file_size\":");
            let sz = dec_of(fs.file_size);
            out.append(sz.as_str());
            out.append("}");
            i = i + 1;
            proof {
                assert(ms.take(i as int).drop_last() =~= ms.take(i as int - 1));
                assert(ms.take(i as int).last() == ms[i as int - 1]);
                assert(out@ =~= head + json_filesets(ms.take(i as int)));
            }
        }
        proof {
            assert(ms.take(ms.len() as int) =~= ms);
        }
        out.append("]}");
        proof {
            assert(out@ =~= spec_show_json(*rs));
        }
        out
    }
}

} // verus!
