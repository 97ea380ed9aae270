//! One evaluator tick over a detached snapshot: every unordered pair of
//! distinct entities is considered exactly once, its distance is held
//! against both threshold bands, and each crossing yields one alert.
//!
//! The great-circle distances themselves are computed outside the library
//! (they are floating-point work) and handed in as an `n x n` row-major
//! matrix of integer millimeters; everything from the pair enumeration to
//! the alert batch is computed and specified here.

use vstd::prelude::*;

use crate::classify::{classify_max, classify_min, spec_classify_max, spec_classify_min, AlertKind};
use crate::table::EntityState;

verus! {

/// One threshold-crossing alert: the two entity ids, their distance in
/// millimeters, and the band/tier that was crossed. Transient: built,
/// shipped, discarded.
#[derive(Clone, Debug)]
pub struct DistanceAlert {
    pub ida: String,
    pub idb: String,
    pub distance_mm: u64,
    pub kind: AlertKind,
}

/// Mathematical image of an alert: the ids as character sequences.
pub struct AlertModel {
    pub ida: Seq<char>,
    pub idb: Seq<char>,
    pub distance_mm: u64,
    pub kind: AlertKind,
}

impl View for DistanceAlert {
    type V = AlertModel;

    open spec fn view(&self) -> AlertModel {
        AlertModel { ida: self.ida@, idb: self.idb@, distance_mm: self.distance_mm, kind: self.kind }
    }
}

/// The models of a batch of alerts, in order.
pub open spec fn views_of(s: Seq<DistanceAlert>) -> Seq<AlertModel> {
    s.map_values(|al: DistanceAlert| al@)
}

/// The zero, one or two alerts one evaluated pair yields: one per band
/// whose threshold its distance crosses, minimum band first.
pub open spec fn spec_pair_alerts(
    ida: Seq<char>,
    idb: Seq<char>,
    d: u64,
    min_mm: u64,
    max_mm: u64,
) -> Seq<AlertModel> {
    let min_part = match spec_classify_min(d, min_mm) {
        Some(k) => seq![AlertModel { ida: ida, idb: idb, distance_mm: d, kind: k }],
        None => seq![],
    };
    let max_part = match spec_classify_max(d, max_mm) {
        Some(k) => seq![AlertModel { ida: ida, idb: idb, distance_mm: d, kind: k }],
        None => seq![],
    };
    min_part + max_part
}

/// The distance entry for the ordered index pair `(i, j)` in a row-major
/// `n x n` matrix.
pub open spec fn dist_at(dists: Seq<u64>, n: int, i: int, j: int) -> u64 {
    if 0 <= i * n + j < dists.len() {
        dists[i * n + j]
    } else {
        0
    }
}

/// The alert batch a tick emits, walking the unordered pairs `(i, j)`,
/// `i < j`, of the snapshot in row order starting at `(i, j)`.
pub open spec fn spec_tick_alerts(
    snap: Seq<EntityState>,
    dists: Seq<u64>,
    i: int,
    j: int,
    min_mm: u64,
    max_mm: u64,
) -> Seq<AlertModel>
    decreases snap.len() - i, snap.len() - j,
{
    if !(0 <= i && i < j) {
        seq![]
    } else if i >= snap.len() {
        seq![]
    } else if j >= snap.len() {
        spec_tick_alerts(snap, dists, i + 1, i + 2, min_mm, max_mm)
    } else {
        spec_pair_alerts(snap[i].id@, snap[j].id@, dist_at(dists, snap.len() as int, i, j), min_mm,
            max_mm) + spec_tick_alerts(snap, dists, i, j + 1, min_mm, max_mm)
    }
}

/// Builds the alerts one evaluated pair yields: each band is held against
/// the distance independently, so a pair may produce zero, one or two
/// alerts.
pub fn alerts_for_pair(a: &EntityState, b: &EntityState, d: u64, min_mm: u64, max_mm: u64) -> (r:
    Vec<DistanceAlert>)
    ensures
        views_of(r@) == spec_pair_alerts(a.id@, b.id@, d, min_mm, max_mm),
{
    let mut r: Vec<DistanceAlert> = Vec::new();
    match classify_min(d, min_mm) {
        Some(k) => {
            r.push(DistanceAlert { ida: a.id.clone(), idb: b.id.clone(), distance_mm: d, kind: k });
        },
        None => {},
    }
    match classify_max(d, max_mm) {
        Some(k) => {
            r.push(DistanceAlert { ida: a.id.clone(), idb: b.id.clone(), distance_mm: d, kind: k });
        },
        None => {},
    }
    proof {
        assert(views_of(r@) =~= spec_pair_alerts(a.id@, b.id@, d, min_mm, max_mm));
    }
    r
}

/// The index pair `(a, b)` stands somewhere in `s`.
pub open spec fn pair_covered(s: Seq<(usize, usize)>, a: int, b: int) -> bool {
    exists|k: int| 0 <= k < s.len() && (#[trigger] s[k]).0 == a && s[k].1 == b
}

/// Enumerates the unordered pairs a tick considers for a snapshot of `n`
/// entities: exactly the `n * (n - 1) / 2` index pairs `(i, j)` with
/// `i < j < n`, each exactly once, in row order. The evaluator reads the
/// distance matrix at exactly these pairs.
pub fn pair_indices(n: usize) -> (r: Vec<(usize, usize)>)
    ensures
        2 * r@.len() == n * (n - 1),
        forall|k: int| 0 <= k < r@.len() ==> (#[trigger] r@[k]).0 < r@[k].1 < n,
        forall|a: int, b: int| 0 <= a < b < n ==> #[trigger] pair_covered(r@, a, b),
        forall|k1: int, k2: int|
            0 <= k1 < k2 < r@.len() ==> !((#[trigger] r@[k1]).0 == (#[trigger] r@[k2]).0 && r@[k1].1
                == r@[k2].1),
{
    let mut r: Vec<(usize, usize)> = Vec::new();
    let mut i: usize = 0;
    while i < n
        invariant
            0 <= i <= n,
            2 * r@.len() == i * (2 * n - i - 1),
            forall|k: int| 0 <= k < r@.len() ==> (#[trigger] r@[k]).0 < r@[k].1 < n,
            forall|k: int| 0 <= k < r@.len() ==> (#[trigger] r@[k]).0 < i,
            forall|a: int, b: int|
                0 <= a < b < n && a < i ==> #[trigger] pair_covered(r@, a, b),
            forall|k1: int, k2: int|
                0 <= k1 < k2 < r@.len() ==> ((#[trigger] r@[k1]).0 < (#[trigger] r@[k2]).0 || (
                r@[k1].0 == r@[k2].0 && r@[k1].1 < r@[k2].1)),
        decreases n - i,
    {
        let mut j: usize = i + 1;
        while j < n
            invariant
                0 <= i < n,
                i + 1 <= j <= n,
                2 * r@.len() == i * (2 * n - i - 1) + 2 * (j - i - 1),
                forall|k: int| 0 <= k < r@.len() ==> (#[trigger] r@[k]).0 < r@[k].1 < n,
                forall|k: int|
                    0 <= k < r@.len() ==> ((#[trigger] r@[k]).0 < i || (r@[k].0 == i && r@[k].1
                        < j)),
                forall|a: int, b: int|
                    0 <= a < b < n && (a < i || (a == i && b < j)) ==> #[trigger] pair_covered(
                        r@, a, b),
                forall|k1: int, k2: int|
                    0 <= k1 < k2 < r@.len() ==> ((#[trigger] r@[k1]).0 < (#[trigger] r@[k2]).0 || (
                    r@[k1].0 == r@[k2].0 && r@[k1].1 < r@[k2].1)),
            decreases n - j,
        {
            let ghost r_pre = r@;
            r.push((i, j));
            proof {
                assert(r@[r@.len() - 1] == (i, j));
                assert(pair_covered(r@, i as int, j as int));
                assert forall|a: int, b: int| pair_covered(r_pre, a, b) implies pair_covered(
                    r@, a, b) by {
                    let k = choose|k: int|
                        0 <= k < r_pre.len() && (#[trigger] r_pre[k]).0 == a && r_pre[k].1 == b;
                    assert(r@[k] == r_pre[k]);
                }
                assert forall|a: int, b: int|
                    0 <= a < b < n && (a < i || (a == i && b < j + 1)) implies pair_covered(
                    r@, a, b) by {
                    if a == i && b == j {
                        assert(pair_covered(r@, a, b));
                    } else {
                        assert(pair_covered(r_pre, a, b));
                    }
                }
            }
            j += 1;
        }
        proof {
            assert((i as int) * (2 * (n as int) - (i as int) - 1) + 2 * ((n as int) - (i as int) - 1)
                == ((i as int) + 1) * (2 * (n as int) - ((i as int) + 1) - 1)) by (nonlinear_arith);
        }
        i += 1;
    }
    proof {
        assert((n as int) * (2 * (n as int) - (n as int) - 1) == (n as int) * ((n as int) - 1))
            by (nonlinear_arith);
    }
    r
}

/// Runs one tick's pairwise pass over a snapshot: every unordered pair of
/// distinct entities is considered exactly once, in row order, and the
/// returned batch holds exactly the alerts of the pairs whose distance
/// crosses a band, in that order. `dists` is the row-major `n x n`
/// distance matrix in millimeters; only its upper triangle is read.
pub fn evaluate_snapshot(
    snap: &Vec<EntityState>,
    dists: &Vec<u64>,
    min_mm: u64,
    max_mm: u64,
) -> (r: Vec<DistanceAlert>)
    requires
        dists@.len() == snap@.len() * snap@.len(),
    ensures
        views_of(r@) == spec_tick_alerts(snap@, dists@, 0, 1, min_mm, max_mm),
{
    let n = snap.len();
    let mut r: Vec<DistanceAlert> = Vec::new();
    let mut i: usize = 0;
    while i < n
        invariant
            0 <= i <= n,
            n == snap@.len(),
            dists@.len() == n * n,
            views_of(r@) + spec_tick_alerts(snap@, dists@, i as int, i as int + 1, min_mm, max_mm)
                == spec_tick_alerts(snap@, dists@, 0, 1, min_mm, max_mm),
        decreases n - i,
    {
        let mut j: usize = i + 1;
        while j < n
            invariant
                0 <= i < n,
                i + 1 <= j <= n,
                n == snap@.len(),
                dists@.len() == n * n,
                views_of(r@) + spec_tick_alerts(snap@, dists@, i as int, j as int, min_mm, max_mm)
                    == spec_tick_alerts(snap@, dists@, 0, 1, min_mm, max_mm),
            decreases n - j,
        {
            let dn = dists.len();
            proof {
                assert((i as int) * (n as int) + (j as int) < (n as int) * (n as int)) by (nonlinear_arith)
                    requires
                        0 <= i < n,
                        0 <= j < n,
                ;
                assert((i as int) * (n as int) + (j as int) >= 0) by (nonlinear_arith)
                    requires
                        0 <= i,
                        0 <= j,
                        0 <= n,
                ;
                assert(dn == (n as int) * (n as int));
            }
            let idx = i * n + j;
            let d = dists[idx];
            let ghost r_pre = r@;
            let mut pa = alerts_for_pair(&snap[i], &snap[j], d, min_mm, max_mm);
            let ghost pa0 = pa@;
            r.append(&mut pa);
            proof {
                assert(d == dist_at(dists@, n as int, i as int, j as int));
                assert(views_of(r@) =~= views_of(r_pre) + views_of(pa0));
                assert(spec_tick_alerts(snap@, dists@, i as int, j as int, min_mm, max_mm)
                    == views_of(pa0) + spec_tick_alerts(snap@, dists@, i as int, j as int + 1,
                    min_mm, max_mm));
                assert(views_of(r@) + spec_tick_alerts(snap@, dists@, i as int, j as int + 1,
                    min_mm, max_mm) =~= (views_of(r_pre) + spec_tick_alerts(snap@, dists@, i as int,
                    j as int, min_mm, max_mm)));
            }
            j += 1;
        }
        proof {
            assert(spec_tick_alerts(snap@, dists@, i as int, n as int, min_mm, max_mm)
                == spec_tick_alerts(snap@, dists@, i as int + 1, i as int + 2, min_mm, max_mm));
        }
        i += 1;
    }
    proof {
        assert(spec_tick_alerts(snap@, dists@, n as int, n as int + 1, min_mm, max_mm)
            =~= Seq::<AlertModel>::empty());
        assert(views_of(r@) + Seq::<AlertModel>::empty() =~= views_of(r@));
    }
    r
}

} // verus!
