//! Choosing where rendered output goes.

use vstd::prelude::*;

use vstd::string::StrSliceExecFns;
use vstd::string::StringExecFns;

use crate::error::ShinkansenError;
use crate::processing::ArgsCheck;
use crate::processing::path_check;
use crate::text::split_plain;
use crate::text::split_plain_spec;
use crate::text::str_eq;

verus! {

broadcast use {
    vstd::seq::group_seq_axioms,
    vstd::std_specs::vec::group_vec_axioms,
};

/// Where rendered output is written.
#[derive(Debug, PartialEq)]
pub enum OutputDestination {
    /// Output to stdout.
    Stdout,
    /// Output to a single file.
    SingleFile(String),
    /// Output to a directory (for multiple files).
    Directory(String),
}

/// The model of a destination: its paths as character sequences.
pub enum DestModel {
    Stdout,
    SingleFile(Seq<char>),
    Directory(Seq<char>),
}

/// The model of an output destination.
pub open spec fn dest_model(d: OutputDestination) -> DestModel {
    match d {
        OutputDestination::Stdout => DestModel::Stdout,
        OutputDestination::SingleFile(p) => DestModel::SingleFile(p@),
        OutputDestination::Directory(p) => DestModel::Directory(p@),
    }
}

/// The outcome of choosing a destination: one, or a rejection.
pub enum DestCheck {
    Dest(DestModel),
    Security(Seq<char>),
    Invalid(Seq<char>),
}

/// What choosing a destination yields. An explicit `-` is stdout; an
/// explicit path is validated, then names a single file when one input
/// produces one output and the path is no directory, else a directory.
/// With no explicit output, a single input goes to stdout and several
/// inputs are an error.
pub open spec fn dest_check(
    output: Option<Seq<char>>,
    single_file: bool,
    output_is_dir: bool,
) -> DestCheck {
    match output {
        Some(o) => if o == ("-")@ {
            DestCheck::Dest(DestModel::Stdout)
        } else {
            match path_check(o) {
                ArgsCheck::Accepted => if single_file && !output_is_dir {
                    DestCheck::Dest(DestModel::SingleFile(o))
                } else {
                    DestCheck::Dest(DestModel::Directory(o))
                },
                ArgsCheck::Security(m) => DestCheck::Security(m),
                ArgsCheck::Invalid(m) => DestCheck::Invalid(m),
            }
        },
        None => if single_file {
            DestCheck::Dest(DestModel::Stdout)
        } else {
            DestCheck::Invalid(("Output directory required for multiple files")@)
        },
    }
}

/// Determine the appropriate output destination.
///
/// `single_file` says whether exactly one output will be produced, and
/// `output_is_dir` reports what the filesystem says of the output path;
/// the caller queries it.
pub fn determine_output_destination(
    output: &Option<String>,
    single_file: bool,
    output_is_dir: bool,
) -> (r: Result<OutputDestination, ShinkansenError>)
    ensures
        (match dest_check(
            match *output {
                Some(o) => Some(o@),
                None => None,
            },
            single_file,
            output_is_dir,
        ) {
            DestCheck::Dest(dm) => r matches Ok(d) && dest_model(d) == dm,
            DestCheck::Security(m) => r matches Err(e)
                && e matches ShinkansenError::SecurityError(s) && s@ == m,
            DestCheck::Invalid(m) => r matches Err(e)
                && e matches ShinkansenError::ValidationError(s) && s@ == m,
        }),
{
    match output {
        Some(o) => {
            if str_eq(o.as_str(), "-") {
                return Ok(OutputDestination::Stdout);
            }
            match crate::processing::validate_path(o.as_str()) {
                Ok(_u) => {},
                Err(e) => {
                    return Err(e);
                },
            }
            if single_file && !output_is_dir {
                Ok(OutputDestination::SingleFile(o.clone()))
            } else {
                Ok(OutputDestination::Directory(o.clone()))
            }
        },
        None => {
            if single_file {
                Ok(OutputDestination::Stdout)
            } else {
                Err(
                    ShinkansenError::ValidationError(
                        String::from_str("Output directory required for multiple files"),
                    ),
                )
            }
        },
    }
}

/// The `/`-separated pieces of a path, with one trailing empty piece
/// (from a trailing slash) dropped.
pub open spec fn path_components(p: Seq<char>) -> Seq<Seq<char>> {
    let raw = split_plain_spec(p, '/');
    if raw.len() > 1 && raw.last().len() == 0 {
        raw.drop_last()
    } else {
        raw
    }
}

/// Whether `file` starts with `base`, piece by piece.
pub open spec fn components_prefix(base: Seq<Seq<char>>, file: Seq<Seq<char>>) -> bool {
    base.len() <= file.len() && (forall|i: int| 0 <= i < base.len() ==> file[i] == #[trigger] base[i])
}

/// Pieces joined back with `/` between them.
pub open spec fn join_components(cs: Seq<Seq<char>>) -> Seq<char>
    decreases cs.len(),
{
    if cs.len() == 0 {
        Seq::empty()
    } else if cs.len() == 1 {
        cs[0]
    } else {
        join_components(cs.drop_last()) + ("/")@ + cs.last()
    }
}

/// A directory and a relative path joined with one separator; an empty
/// relative path leaves the directory as it is.
pub open spec fn join_path(dir: Seq<char>, rel: Seq<char>) -> Seq<char> {
    if rel.len() == 0 {
        dir
    } else if dir.len() == 0 {
        rel
    } else if dir.last() == '/' {
        dir + rel
    } else {
        dir + ("/")@ + rel
    }
}

/// The last piece of a path, or empty if there is none.
pub open spec fn file_name_of(p: Seq<char>) -> Seq<char> {
    if path_components(p).len() == 0 {
        Seq::empty()
    } else {
        path_components(p).last()
    }
}

/// Where a rendered file goes under a directory output: when the one
/// input is a directory that the file lies under, the file keeps its
/// relative path below the directory; otherwise only its name is used.
pub open spec fn output_file_spec(
    dir: Seq<char>,
    file: Seq<char>,
    inputs: Seq<Seq<char>>,
    first_input_is_dir: bool,
) -> Seq<char> {
    if inputs.len() == 1 && first_input_is_dir && components_prefix(
        path_components(inputs[0]),
        path_components(file),
    ) {
        join_path(
            dir,
            join_components(
                path_components(file).skip(path_components(inputs[0]).len() as int),
            ),
        )
    } else {
        join_path(dir, file_name_of(file))
    }
}

/// The `/`-separated pieces of a path.
fn path_components_exec(p: &str) -> (r: Vec<String>)
    ensures
        r.deep_view() == path_components(p@),
{
    let mut v = split_plain(p, '/');
    let n = v.len();
    if n > 1 && v[n - 1].as_str().is_empty() {
        let ghost before = v.deep_view();
        let _last = v.pop();
        proof {
            assert(v.deep_view() =~= before.drop_last());
        }
    }
    v
}

/// Join the pieces from position `from` on with `/` between them.
#[verifier::loop_isolation(false)]
fn join_components_exec(cs: &Vec<String>, from: usize) -> (r: String)
    requires
        from <= cs@.len(),
    ensures
        r@ == join_components(cs.deep_view().skip(from as int)),
{
    let ghost tail = cs.deep_view().skip(from as int);
    let n = cs.len();
    let mut out = String::new();
    let mut i: usize = from;
    while i < n
        invariant
            from <= i <= n,
            out@ == join_components(tail.take(i - from)),
        decreases n - i,
    {
        proof {
            let k = i - from;
            assert(tail.take(k + 1).drop_last() =~= tail.take(k));
            assert(tail.take(k + 1).last() == tail[k]);
            assert(tail[k] == cs.deep_view()[i as int]);
            assert(cs.deep_view()[i as int] == cs@[i as int]@);
            if k == 0 {
                assert(tail.take(1)[0] == tail[0]);
            }
        }
        if i > from {
            out.append("/");
        }
        out.append(cs[i].as_str());
        proof {
            if i - from == 0 {
                assert(out@ =~= join_components(tail.take(i - from + 1)));
            }
        }
        i = i + 1;
    }
    proof {
        assert(tail.take(n - from) =~= tail);
    }
    out
}

/// Join a directory and a relative path with one separator.
fn join_path_exec(dir: &str, rel: &str) -> (r: String)
    ensures
        r@ == join_path(dir@, rel@),
{
    if rel.is_empty() {
        return String::from_str(dir);
    }
    let dn = dir.unicode_len();
    if dn == 0 {
        return String::from_str(rel);
    }
    if dir.get_char(dn - 1) == '/' {
        String::from_str(dir).concat(rel)
    } else {
        let mut out = String::from_str(dir);
        out.append("/");
        out.append(rel);
        proof {
            assert(out@ =~= dir@ + ("/")@ + rel@);
        }
        out
    }
}

/// Determine the output file path for directory output.
///
/// `first_input_is_dir` reports what the filesystem says of the first
/// input; the caller queries it.
#[verifier::loop_isolation(false)]
pub fn determine_output_file_path(
    output_dir: &str,
    input_file: &str,
    inputs: &Vec<String>,
    first_input_is_dir: bool,
) -> (r: String)
    ensures
        r@ == output_file_spec(output_dir@, input_file@, inputs.deep_view(), first_input_is_dir),
{
    let fcs = path_components_exec(input_file);
    if inputs.len() == 1 && first_input_is_dir {
        let ghost base = path_components(inputs.deep_view()[0]);
        proof {
            assert(inputs.deep_view()[0] == inputs@[0]@);
        }
        let bcs = path_components_exec(inputs[0].as_str());
        let bn = bcs.len();
        if bn <= fcs.len() {
            let mut matched = true;
            let mut i: usize = 0;
            while i < bn
                invariant
                    i <= bn,
                    matched == (forall|k: int|
                        0 <= k < i ==> fcs.deep_view()[k] == #[trigger] bcs.deep_view()[k]),
                decreases bn - i,
            {
                proof {
                    assert(fcs.deep_view()[i as int] == fcs@[i as int]@);
                    assert(bcs.deep_view()[i as int] == bcs@[i as int]@);
                }
                if !str_eq(fcs[i].as_str(), bcs[i].as_str()) {
                    matched = false;
                }
                i = i + 1;
            }
            if matched {
                let rel = join_components_exec(&fcs, bn);
                return join_path_exec(output_dir, rel.as_str());
            }
            proof {
                assert(!components_prefix(base, path_components(input_file@)));
            }
        }
    }
    let name: String = if fcs.len() == 0 {
        String::new()
    } else {
        fcs[fcs.len() - 1].clone()
    };
    proof {
        if fcs@.len() > 0 {
            assert(fcs.deep_view()[fcs@.len() - 1] == fcs@[fcs@.len() - 1]@);
            assert(name@ == file_name_of(input_file@));
        }
    }
    join_path_exec(output_dir, name.as_str())
}

} // verus!
