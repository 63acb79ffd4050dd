//! The sink: where rendered lines go.  A run writes either to the two
//! console streams or to a data file with a sibling error file; successes
//! and failures travel on independent channels and every record is routed
//! to exactly one of them.
//!
//! The actual writing (opening a file in append mode around a single
//! write, or printing to a console stream) is plain I/O and lives outside
//! the library; the sink decides, exactly, where each line must go.

use vstd::prelude::*;
use crate::errors::RunError;

verus! {

/// The suffix of the sibling error file.
pub open spec fn err_suffix() -> Seq<char> {
    ".err"@
}

/// Where one rendered line must be written.
#[derive(Debug)]
pub enum WriteTarget {
    /// The standard success stream.
    Stdout,
    /// The standard error stream.
    Stderr,
    /// Appended, with a line terminator, to the file at this path.
    AppendFile(String),
}

/// One routed output line: the destination and the text to write.
#[derive(Debug)]
pub struct SinkWrite {
    pub target: WriteTarget,
    pub text: String,
}

/// `t` is the success destination of `o`.
pub open spec fn success_target(o: Output, t: WriteTarget) -> bool {
    match o {
        Output::Print => t is Stdout,
        Output::File { path, .. } => t matches WriteTarget::AppendFile(f) && f@ == path@,
    }
}

/// `t` is the failure destination of `o`.
pub open spec fn failure_target(o: Output, t: WriteTarget) -> bool {
    match o {
        Output::Print => t is Stderr,
        Output::File { err_path, .. } => t matches WriteTarget::AppendFile(f) && f@ == err_path@,
    }
}

/// `w` carries `text` to the success destination of `o`.
pub open spec fn success_write(o: Output, w: SinkWrite, text: Seq<char>) -> bool {
    w.text@ == text && success_target(o, w.target)
}

/// `w` carries `text` to the failure destination of `o`.
pub open spec fn failure_write(o: Output, w: SinkWrite, text: Seq<char>) -> bool {
    w.text@ == text && failure_target(o, w.target)
}

/// The output destination of a run.
#[derive(Debug)]
pub enum Output {
    /// The two console streams.
    Print,
    /// A data file and its sibling error file.
    File { path: String, err_path: String },
}

impl Output {
    /// Chooses the destination.  With no path the console is used.  With a
    /// path, the sibling error path is the path with `.err` appended, and
    /// neither file may already exist: if either does, construction fails
    /// with a conflict naming both paths and which of them collided, and
    /// nothing is ever written to either.  The caller supplies what only
    /// the file system knows: whether each path currently exists.
    pub fn try_from_path(path: Option<String>, path_exists: bool, err_exists: bool) -> (r: Result<
        Output,
        RunError,
    >)
        ensures
            match path {
                None => r == Ok::<Output, RunError>(Output::Print),
                Some(p) => {
                    if path_exists || err_exists {
                        match r {
                            Err(e) => match e {
                                RunError::DestinationConflict {
                                    path: cp,
                                    err_path: ce,
                                    path_exists: cpe,
                                    err_exists: cee,
                                } => cp@ == p@ && ce@ == p@ + err_suffix() && cpe == path_exists
                                    && cee == err_exists,
                                _ => false,
                            },
                            Ok(_) => false,
                        }
                    } else {
                        match r {
                            Ok(o) => match o {
                                Output::File { path: op, err_path: oe } => op@ == p@ && oe@ == p@
                                    + err_suffix(),
                                _ => false,
                            },
                            Err(_) => false,
                        }
                    }
                },
            },
    {
        match path {
            None => Ok(Output::Print),
            Some(p) => {
                let mut err_path = p.clone();
                err_path.append(".err");
                if path_exists || err_exists {
                    Err(
                        RunError::DestinationConflict {
                            path: p,
                            err_path,
                            path_exists,
                            err_exists,
                        },
                    )
                } else {
                    Ok(Output::File { path: p, err_path })
                }
            },
        }
    }

    /// Routes one rendered line: a success to the data destination, a
    /// failure to the error destination, never both, never neither.
    pub fn output(&self, parse_res: Result<String, String>) -> (w: SinkWrite)
        ensures
            match parse_res {
                Ok(text) => w.text@ == text@ && match self {
                    Output::Print => w.target is Stdout,
                    Output::File { path, .. } => w.target matches WriteTarget::AppendFile(t)
                        && t@ == path@,
                },
                Err(text) => w.text@ == text@ && match self {
                    Output::Print => w.target is Stderr,
                    Output::File { err_path, .. } => w.target matches WriteTarget::AppendFile(t)
                        && t@ == err_path@,
                },
            },
    {
        match self {
            Output::Print => match parse_res {
                Ok(o) => SinkWrite { target: WriteTarget::Stdout, text: o },
                Err(e) => SinkWrite { target: WriteTarget::Stderr, text: e },
            },
            Output::File { path, err_path } => match parse_res {
                Ok(o) => SinkWrite { target: WriteTarget::AppendFile(path.clone()), text: o },
                Err(e) => SinkWrite {
                    target: WriteTarget::AppendFile(err_path.clone()),
                    text: e,
                },
            },
        }
    }
}

} // verus!
