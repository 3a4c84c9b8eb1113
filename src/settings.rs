//! Settings decided before a run: the size of the main thread pool and the
//! retention settings of a dedupe run.

use vstd::prelude::*;

use crate::files::Timestamp;
use crate::scan::lit_at_exec;

verus! {

/// The widths of a thread pool for sequential and for random access.
#[derive(Clone, Copy, Debug, PartialEq, Eq, Structural)]
pub struct Parallelism {
    pub sequential: usize,
    pub random: usize,
}

/// The sizes of the first entry named `name`, if any.
pub open spec fn pool_named(sizes: Seq<(Seq<char>, Parallelism)>, name: Seq<char>) -> Option<Parallelism>
    decreases sizes.len(),
{
    if sizes.len() == 0 {
        None
    } else if sizes[0].0 == name {
        Some(sizes[0].1)
    } else {
        pool_named(sizes.drop_first(), name)
    }
}

/// The sizes of the pool named `main`, else of the one named `default`, else
/// zero widths (which leaves the choice to the pool).
pub open spec fn main_parallelism(sizes: Seq<(Seq<char>, Parallelism)>) -> Parallelism {
    match pool_named(sizes, "main"@) {
        Some(p) => p,
        None => match pool_named(sizes, "default"@) {
            Some(p) => p,
            None => Parallelism { sequential: 0, random: 0 },
        },
    }
}

pub open spec fn pool_table(v: Seq<(String, Parallelism)>) -> Seq<(Seq<char>, Parallelism)> {
    v.map_values(|e: (String, Parallelism)| (e.0@, e.1))
}

/// Whether two texts are equal.
pub fn same_text(a: &str, b: &str) -> (r: bool)
    ensures
        r == (a@ == b@),
{
    if a.unicode_len() != b.unicode_len() {
        return false;
    }
    let r = lit_at_exec(a, 0, b);
    proof {
        if r {
            assert(a@.subrange(0, b@.len() as int) =~= a@);
        } else {
            assert(a@.subrange(0, a@.len() as int) =~= a@);
        }
    }
    r
}

fn find_pool(sizes: &Vec<(String, Parallelism)>, name: &str) -> (r: Option<Parallelism>)
    ensures
        r == pool_named(pool_table(sizes@), name@),
{
    let mut i: usize = 0;
    assert(pool_table(sizes@).skip(0) =~= pool_table(sizes@));
    while i < sizes.len()
        invariant
            0 <= i <= sizes@.len(),
            pool_named(pool_table(sizes@), name@) == pool_named(
                pool_table(sizes@).skip(i as int),
                name@,
            ),
        decreases sizes@.len() - i,
    {
        let ghost rest = pool_table(sizes@).skip(i as int);
        assert(rest.drop_first() =~= pool_table(sizes@).skip(i + 1));
        assert(rest[0] == (sizes@[i as int].0@, sizes@[i as int].1));
        if same_text(sizes[i].0.as_str(), name) {
            return Some(sizes[i].1);
        }
        i = i + 1;
    }
    None
}

/// Chooses the sizes of the main thread pool from the configured pool
/// sizes, by pool name. Where a name is given more than once, its first
/// entry counts.
pub fn main_pool_parallelism(pool_sizes: &Vec<(String, Parallelism)>) -> (r: Parallelism)
    ensures
        r == main_parallelism(pool_table(pool_sizes@)),
{
    match find_pool(pool_sizes, "main") {
        Some(p) => p,
        None => match find_pool(pool_sizes, "default") {
            Some(p) => p,
            None => Parallelism { sequential: 0, random: 0 },
        },
    }
}

/// The settings of a dedupe run.
#[derive(Clone, Copy, Debug, PartialEq, Eq, Structural)]
pub struct DedupeSettings {
    /// Groups with fewer redundant files than this are left alone.
    pub rf_over: usize,
    /// Files modified at or after this instant are left alone.
    pub modified_before: Timestamp,
}

/// Settles the dedupe settings. `earlier_rf_over` is the setting of the
/// grouping run recorded in the report's header, where that command was a
/// grouping run; it takes precedence over `rf_over` given now. Without
/// either there is no setting and the run must stop (`None`). Without a
/// cutoff, the report's timestamp is the cutoff, which protects files
/// modified since the report was made.
pub fn resolve_dedupe_settings(
    earlier_rf_over: Option<usize>,
    rf_over: Option<usize>,
    modified_before: Option<Timestamp>,
    report_timestamp: Timestamp,
) -> (r: Option<DedupeSettings>)
    ensures
        match (earlier_rf_over, rf_over) {
            (None, None) => r is None,
            _ => r == Some(
                DedupeSettings {
                    rf_over: match earlier_rf_over {
                        Some(n) => n,
                        None => rf_over.unwrap(),
                    },
                    modified_before: match modified_before {
                        Some(t) => t,
                        None => report_timestamp,
                    },
                },
            ),
        },
{
    let n = match earlier_rf_over {
        Some(n) => n,
        None => match rf_over {
            Some(n) => n,
            None => return None,
        },
    };
    let cutoff = match modified_before {
        Some(t) => t,
        None => report_timestamp,
    };
    Some(DedupeSettings { rf_over: n, modified_before: cutoff })
}

} // verus!
