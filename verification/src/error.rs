use vstd::prelude::*;

verus! {

/// The failure kinds the tool can report.
///
/// The first group arises before or during a single job; `CursorUnderflow`
/// signals a path-cursor misuse (more pops than pushes); `Aggregate` wraps
/// the failures of several concurrently run jobs.
#[derive(Debug)]
pub enum Error {
    /// The destination directory already exists and overwriting was not forced.
    DestinationExists,
    /// Recursive deletion of an existing destination failed.
    CannotClean(String),
    /// The destination directory could not be created.
    CannotCreate(String),
    /// The git-clone collaborator failed.
    CloneFailure(String),
    /// A network fetch failed.
    NetworkFailure(String),
    /// The zip central directory or an entry could not be read.
    CorruptArchive,
    /// An entry's sanitized path did not carry the shared top-level prefix
    /// that a flattening unpack expected.
    UnexpectedArchiveLayout,
    /// A path cursor was popped more times than segments were pushed.
    CursorUnderflow,
    /// The cloned core repository lacks its visualization subtree.
    MissingVisualization,
    /// A reserved resource name was used for a backend.
    ReservedName,
    /// Two or more failures occurred across concurrently run jobs.
    Aggregate(MultiError),
}

/// An ordered collection of independently raised failures.
///
/// It grows only by appending and is reported as one failure that
/// enumerates every contained one with a stable index.
#[derive(Debug)]
pub struct MultiError {
    pub errors: Vec<Error>,
}

/// The failures contained in a sequence of job results, in order.
pub open spec fn failures_of(results: Seq<Result<(), Error>>) -> Seq<Error>
    decreases results.len(),
{
    if results.len() == 0 {
        Seq::empty()
    } else {
        (match results.first() {
            Ok(_) => Seq::<Error>::empty(),
            Err(e) => seq![e],
        }) + failures_of(results.skip(1))
    }
}

/// Joins the results of concurrently run jobs: success when every job
/// succeeded, otherwise a single aggregate failure holding every job's
/// failure in the order the results were received.
pub fn aggregate(results: Vec<Result<(), Error>>) -> (r: Result<(), Error>)
    ensures
        r is Ok <==> failures_of(results@).len() == 0,
        r matches Err(e) ==> (e matches Error::Aggregate(m) && m.errors@ == failures_of(
            results@,
        )),
{
    let ghost all = results@;
    let mut rest = results;
    let mut errors: Vec<Error> = Vec::new();
    while rest.len() > 0
        invariant
            errors@ + failures_of(rest@) == failures_of(all),
        decreases rest.len(),
    {
        let ghost before = rest@;
        let first = rest.remove(0);
        proof {
            assert(rest@ =~= before.skip(1));
        }
        match first {
            Ok(_) => {
                proof {
                    assert(Seq::<Error>::empty() + failures_of(rest@) =~= failures_of(rest@));
                }
            },
            Err(e) => {
                let ghost errors_before = errors@;
                errors.push(e);
                proof {
                    assert(errors@ + failures_of(rest@) =~= errors_before + (seq![e]
                        + failures_of(rest@)));
                }
            },
        }
    }
    proof {
        assert(errors@ + failures_of(rest@) =~= errors@);
    }
    if errors.len() == 0 {
        Ok(())
    } else {
        Err(Error::Aggregate(MultiError { errors }))
    }
}

} // verus!
