//! Display form of paths and the exact report lines printed for a
//! performed or simulated rename.

use vstd::prelude::*;
use vstd::string::StringExecFns;
use crate::fs_path::FsPath;

verus! {

/// The display form of a path: its components joined with `/`.
pub open spec fn join_path(parts: Seq<Seq<char>>) -> Seq<char>
    decreases parts.len(),
{
    if parts.len() == 0 {
        Seq::empty()
    } else if parts.len() == 1 {
        parts[0]
    } else {
        join_path(parts.drop_last()) + seq!['/'] + parts.last()
    }
}

/// Renders a path in its display form.
pub fn path_display(p: &FsPath) -> (r: String)
    ensures
        r@ == join_path(p@),
{
    let mut out = String::new();
    let mut i: usize = 0;
    while i < p.components.len()
        invariant
            i <= p@.len(),
            out@ == join_path(p@.take(i as int)),
        decreases p@.len() - i,
    {
        if i > 0 {
            out.append("/");
        }
        out.append(p.components[i].as_str());
        proof {
            reveal_strlit("/");
            assert(p@.take(i as int + 1).drop_last() =~= p@.take(i as int));
            assert(p@.take(i as int + 1).last() == p@[i as int]);
            if i == 0 {
                assert(out@ =~= join_path(p@.take(1)));
            } else {
                assert(out@ =~= join_path(p@.take(i as int + 1)));
            }
        }
        i += 1;
    }
    proof {
        assert(p@.take(p@.len() as int) =~= p@);
    }
    out
}

/// The line reported for a rename that was simulated in a dry run.
pub open spec fn report_line_spec(from: Seq<Seq<char>>, to: Seq<Seq<char>>) -> Seq<char> {
    "Would rename: "@ + join_path(from) + " -> "@ + join_path(to)
}

/// The line reported for a rename that was performed.
pub open spec fn rename_line_spec(from: Seq<Seq<char>>, to: Seq<Seq<char>>) -> Seq<char> {
    "Renamed: "@ + join_path(from) + " -> "@ + join_path(to)
}

/// Builds the dry-run report line for a rename of `from` to `to`.
pub fn report_line(from: &FsPath, to: &FsPath) -> (r: String)
    ensures
        r@ == report_line_spec(from@, to@),
{
    let mut out = String::from_str("Would rename: ");
    let from_disp = path_display(from);
    out.append(from_disp.as_str());
    out.append(" -> ");
    let to_disp = path_display(to);
    out.append(to_disp.as_str());
    out
}

/// Builds the live report line for a rename of `from` to `to`.
pub fn rename_line(from: &FsPath, to: &FsPath) -> (r: String)
    ensures
        r@ == rename_line_spec(from@, to@),
{
    let mut out = String::from_str("Renamed: ");
    let from_disp = path_display(from);
    out.append(from_disp.as_str());
    out.append(" -> ");
    let to_disp = path_display(to);
    out.append(to_disp.as_str());
    out
}

} // verus!
