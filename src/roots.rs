//! Checking the input roots of a grouping run before any work starts.

use vstd::prelude::*;

verus! {

/// What a root turned out to be when it was looked up.
#[derive(Clone, Copy, Debug, PartialEq, Eq, Structural)]
pub enum RootKind {
    File,
    Dir,
    Inaccessible,
}

/// Why a grouping run cannot start.
#[derive(Clone, Copy, Debug, PartialEq, Eq, Structural)]
pub enum RootsError {
    /// Some roots could not be accessed.
    SomeInaccessible,
    /// No roots are left to scan.
    NoInputFiles,
}

/// A directory is skipped where recursion is disabled (depth 0).
pub open spec fn skipped(depth: Option<usize>, k: RootKind) -> bool {
    k is Dir && depth == Some(0usize)
}

/// The indices of the roots from `i` on that are kept: all but the
/// directories skipped at depth 0.
pub open spec fn kept_from(depth: Option<usize>, rs: Seq<RootKind>, i: int) -> Seq<usize>
    decreases rs.len() - i,
{
    if i < 0 || i >= rs.len() {
        Seq::empty()
    } else if skipped(depth, rs[i]) {
        kept_from(depth, rs, i + 1)
    } else {
        seq![i as usize] + kept_from(depth, rs, i + 1)
    }
}

/// The indices of the roots that are kept, in order.
pub open spec fn kept_roots(depth: Option<usize>, rs: Seq<RootKind>) -> Seq<usize> {
    kept_from(depth, rs, 0)
}

proof fn lemma_kept_from_step(depth: Option<usize>, rs: Seq<RootKind>, i: int, acc: Seq<usize>)
    requires
        0 <= i < rs.len(),
    ensures
        acc + kept_from(depth, rs, i) == (if skipped(depth, rs[i]) {
            acc
        } else {
            acc.push(i as usize)
        }) + kept_from(depth, rs, i + 1),
{
    if !skipped(depth, rs[i]) {
        assert(acc + (seq![i as usize] + kept_from(depth, rs, i + 1)) =~= acc.push(i as usize)
            + kept_from(depth, rs, i + 1));
    }
}

/// Decides which roots a grouping run scans. Where the roots arrive on a
/// stream they cannot be checked up front, and all are kept. Otherwise any
/// inaccessible root stops the run, directories are skipped where the depth
/// is 0, and a run with no root left cannot start.
pub fn check_roots(streamed: bool, depth: Option<usize>, roots: &Vec<RootKind>) -> (r: Result<
    Vec<usize>,
    RootsError,
>)
    ensures
        streamed ==> (r matches Ok(v) && v@.len() == roots@.len() && forall|i: int|
            0 <= i < v@.len() ==> v@[i] == i),
        !streamed && (exists|i: int| 0 <= i < roots@.len() && roots@[i] is Inaccessible) ==> r
            == Err::<Vec<usize>, RootsError>(RootsError::SomeInaccessible),
        !streamed && (forall|i: int| 0 <= i < roots@.len() ==> !(roots@[i] is Inaccessible))
            ==> if kept_roots(depth, roots@).len() == 0 {
            r == Err::<Vec<usize>, RootsError>(RootsError::NoInputFiles)
        } else {
            r matches Ok(v) && v@ == kept_roots(depth, roots@)
        },
{
    let mut kept: Vec<usize> = Vec::new();
    if streamed {
        let mut i: usize = 0;
        while i < roots.len()
            invariant
                0 <= i <= roots@.len(),
                kept@.len() == i,
                forall|j: int| 0 <= j < i ==> kept@[j] == j,
            decreases roots@.len() - i,
        {
            kept.push(i);
            i = i + 1;
        }
        return Ok(kept);
    }
    let mut inaccessible = false;
    let mut i: usize = 0;
    assert(kept@ + kept_from(depth, roots@, 0) =~= kept_roots(depth, roots@));
    while i < roots.len()
        invariant
            0 <= i <= roots@.len(),
            kept@ + kept_from(depth, roots@, i as int) == kept_roots(depth, roots@),
            inaccessible == exists|j: int| 0 <= j < i && roots@[j] is Inaccessible,
        decreases roots@.len() - i,
    {
        proof {
            lemma_kept_from_step(depth, roots@, i as int, kept@);
        }
        match roots[i] {
            RootKind::Inaccessible => {
                inaccessible = true;
                kept.push(i);
            },
            RootKind::Dir => {
                let skip = match depth {
                    Some(d) => d == 0,
                    None => false,
                };
                if !skip {
                    kept.push(i);
                }
            },
            RootKind::File => {
                kept.push(i);
            },
        }
        proof {
            if !inaccessible {
                assert(forall|j: int| 0 <= j < i + 1 ==> !(#[trigger] roots@[j] is Inaccessible)
                    || j < i);
            }
        }
        i = i + 1;
    }
    assert(kept_from(depth, roots@, i as int) =~= Seq::<usize>::empty());
    assert(kept@ + Seq::<usize>::empty() =~= kept@);
    if inaccessible {
        return Err(RootsError::SomeInaccessible);
    }
    if kept.len() == 0 {
        return Err(RootsError::NoInputFiles);
    }
    Ok(kept)
}

} // verus!
