//! Rendering of a result set.  Each renderer builds its whole output
//! as one string whose content is pinned down by a spec function;
//! printing the string is left to the surrounding program.

use vstd::prelude::*;

pub mod file;
pub mod json;
pub mod plain;

verus! {

use crate::resultset::ResultSet;
use crate::strutil::str_eq;
use vstd::string::StringExecFns;

/// A renderer of result sets.
pub trait Render {
    /// The text this renderer produces for a result.
    spec fn show_spec(&self, rs: ResultSet) -> Seq<char>;

    /// Renders the result as text.
    fn show(&self, rs: &ResultSet) -> (r: String)
        ensures
            r@ == self.show_spec(*rs),
    ;
}

/// The output formats a caller can ask for.
#[derive(Debug, PartialEq, Eq, Structural)]
pub enum ViewType {
    Plain,
    JSON,
    File,
}

impl ViewType {
    /// Reads a format name.  An unknown name yields nothing: it is a
    /// configuration error for the caller to report, not a silent
    /// fall-back.
    pub fn from_str(vt: &str) -> (r: Option<ViewType>)
        ensures
            r == if vt@ == "plain"@ {
                Some(ViewType::Plain)
            } else if vt@ == "json"@ {
                Some(ViewType::JSON)
            } else if vt@ == "file"@ {
                Some(ViewType::File)
            } else {
                Option::<ViewType>::None
            },
    {
        if str_eq(vt, "plain") {
            Some(ViewType::Plain)
        } else if str_eq(vt, "json") {
            Some(ViewType::JSON)
        } else if str_eq(vt, "file") {
            Some(ViewType::File)
        } else {
            None
        }
    }
}

/// The renderer for a format.
pub fn new(vt: ViewType) -> Box<dyn Render> {
    match vt {
        ViewType::Plain => Box::new(plain::new()),
        ViewType::JSON => Box::new(json::new()),
        ViewType::File => Box::new(file::new()),
    }
}

/// The renderer for an optional format; plain when none was asked
/// for.
pub fn from_option(vt: Option<ViewType>) -> Box<dyn Render> {
    match vt {
        Some(v) => new(v),
        None => new(ViewType::Plain),
    }
}

/// The given path views, each followed by a line break.
pub open spec fn joined_lines(paths: Seq<Seq<char>>) -> Seq<char>
    decreases paths.len(),
{
    if paths.len() == 0 {
        Seq::empty()
    } else {
        joined_lines(paths.drop_last()) + paths.last() + "\n"@
    }
}

/// Appends every path on a line of its own.
pub fn append_lines(out: &mut String, paths: &Vec<String>)
    ensures
        final(out)@ == old(out)@ + joined_lines(crate::strutil::views_of(paths@)),
{
    let ghost pv = crate::strutil::views_of(paths@);
    let mut j: usize = 0;
    proof {
        assert(old(out)@ + joined_lines(pv.take(0)) =~= old(out)@);
    }
    loop
        invariant
            j <= paths@.len(),
            pv == crate::strutil::views_of(paths@),
            out@ =~= old(out)@ + joined_lines(pv.take(j as int)),
        decreases paths@.len() - j,
    {
        if j == paths.len() {
            proof {
                assert(pv.take(pv.len() as int) =~= pv);
            }
            return ;
        }
        out.append(paths[j].as_str());
        out.append("\n");
        j = j + 1;
        proof {
            assert(pv.take(j as int).drop_last() =~= pv.take(j as int - 1));
            assert(pv.take(j as int).last() == paths@[j as int - 1]@);
            assert(out@ =~= old(out)@ + joined_lines(pv.take(j as int)));
        }
    }
}

} // verus!
