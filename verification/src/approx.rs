//! Tolerance-bounded approximation of the object graph.
//!
//! An approximation is built bottom-up: a half-edge discretizes to its
//! boundary points (a straight edge needs no interior points at any
//! tolerance), a cycle concatenates its edges' points, a face gathers its
//! exterior and interior cycles, a shell gathers its faces, a solid its
//! shells. A cache keyed by (object identity, tolerance) memoizes half-edge
//! approximations, so an edge shared by several parents is discretized once
//! per distinct tolerance; cache entries live for the session, and the
//! number of entries counts the discretizations performed.

use vstd::prelude::*;
use crate::geometry::Point3;
use crate::objects::{Cycle, Face, HalfEdge, Shell, Solid};
use crate::services::{
    cycle_valid, face_valid, half_edge_valid, shell_valid, solid_valid, store_extends, Services,
};
use crate::storage::Handle;

verus! {

/// The error returned for a tolerance that bounds nothing.
#[derive(Clone, Copy, Debug, PartialEq, Eq, Structural)]
pub struct InvalidTolerance;

/// A tolerance: the largest acceptable deviation between exact geometry
/// and its discretized approximation. Always positive.
#[derive(Clone, Copy, Debug, PartialEq, Eq, Structural)]
pub struct Tolerance {
    value: u64,
}

impl Tolerance {
    /// The tolerance's numeric value.
    pub closed spec fn spec_value(&self) -> u64 {
        self.value
    }

    /// Create a tolerance from a value. Returns an error if and only if
    /// the value is zero.
    pub fn from_value(value: u64) -> (r: Result<Tolerance, InvalidTolerance>)
        ensures
            match r {
                Ok(t) => value > 0 && t.spec_value() == value,
                Err(e) => value == 0 && e == InvalidTolerance,
            },
    {
        if value == 0 {
            Err(InvalidTolerance)
        } else {
            Ok(Tolerance { value })
        }
    }

    /// Return the tolerance's numeric value.
    pub fn value(&self) -> (r: u64)
        ensures
            r == self.spec_value(),
    {
        self.value
    }
}

/// The approximation of one half-edge: its points, in order along the
/// edge.
pub struct HalfEdgeApprox {
    pub points: Vec<Point3>,
}

impl Clone for HalfEdgeApprox {
    fn clone(&self) -> (r: Self)
        ensures
            r.points@ == self.points@,
    {
        let mut points: Vec<Point3> = Vec::new();
        let n = self.points.len();
        let mut i: usize = 0;
        while i < n
            invariant
                n == self.points@.len(),
                i <= n,
                points@ == self.points@.subrange(0, i as int),
            decreases n - i,
        {
            points.push(self.points[i]);
            proof {
                assert(points@ =~= self.points@.subrange(0, i + 1 as int));
            }
            i += 1;
        }
        proof {
            assert(points@ =~= self.points@);
        }
        HalfEdgeApprox { points }
    }
}

/// The approximation of one face: the face's handle and its boundary
/// points, exterior first, then the interiors in order.
pub struct FaceApprox {
    pub face: Handle<Face>,
    pub points: Vec<Point3>,
}

impl Clone for FaceApprox {
    fn clone(&self) -> (r: Self)
        ensures
            r.face == self.face,
            r.points@ == self.points@,
    {
        let mut points: Vec<Point3> = Vec::new();
        let n = self.points.len();
        let mut i: usize = 0;
        while i < n
            invariant
                n == self.points@.len(),
                i <= n,
                points@ == self.points@.subrange(0, i as int),
            decreases n - i,
        {
            points.push(self.points[i]);
            proof {
                assert(points@ =~= self.points@.subrange(0, i + 1 as int));
            }
            i += 1;
        }
        proof {
            assert(points@ =~= self.points@);
        }
        FaceApprox { face: self.face, points }
    }
}

/// The points a half-edge discretizes to: a straight edge contributes its
/// start position, whatever the tolerance.
pub open spec fn spec_edge_points(e: HalfEdge, s: Services) -> Seq<Point3> {
    seq![s.vertices@[e.start_vertex.spec_id() as int].position]
}

/// The points a cycle discretizes to: its edges' points, in winding order.
pub open spec fn spec_cycle_points(c: Cycle, s: Services) -> Seq<Point3> {
    Seq::new(c.half_edges@.len(), |i: int| spec_edge_points(
        s.half_edges@[c.half_edges@[i].spec_id() as int],
        s,
    )).flatten()
}

/// The points a face discretizes to: its exterior cycle's points, then
/// each interior cycle's points, in order.
pub open spec fn spec_face_points(f: Face, s: Services) -> Seq<Point3> {
    let r = s.regions@[f.region.spec_id() as int];
    spec_cycle_points(s.cycles@[r.exterior.spec_id() as int], s) + Seq::new(
        r.interiors@.len(),
        |i: int| spec_cycle_points(s.cycles@[r.interiors@[i].spec_id() as int], s),
    ).flatten()
}

/// The approximation of a shell: one entry per face, in order.
pub open spec fn spec_shell_approx(sh: Shell, s: Services) -> Seq<(Handle<Face>, Seq<Point3>)> {
    Seq::new(
        sh.faces@.len(),
        |i: int| (sh.faces@[i], spec_face_points(s.faces@[sh.faces@[i].spec_id() as int], s)),
    )
}

/// The approximation of a solid: its shells' approximations, concatenated.
pub open spec fn spec_solid_approx(so: Solid, s: Services) -> Seq<(Handle<Face>, Seq<Point3>)> {
    Seq::new(
        so.shells@.len(),
        |i: int| spec_shell_approx(s.shells@[so.shells@[i].spec_id() as int], s),
    ).flatten()
}

/// Whether a sequence of face approximations carries exactly the described
/// handles and points.
pub open spec fn approx_matches(r: Seq<FaceApprox>, m: Seq<(Handle<Face>, Seq<Point3>)>) -> bool {
    &&& r.len() == m.len()
    &&& forall|i: int| 0 <= i < r.len() ==> (#[trigger] r[i]).face == m[i].0 && r[i].points@
        == m[i].1
}

/// Whether an earlier entry of `m` carries the same face identity as the
/// entry at `i`.
pub open spec fn face_seen_before(m: Seq<(Handle<Face>, Seq<Point3>)>, i: int) -> bool {
    exists|j: int| 0 <= j < i && (#[trigger] m[j]).0.spec_id() == m[i].0.spec_id()
}

/// The entries of `m` from position `i` on whose face identity has not
/// appeared earlier in `m`, in order.
pub open spec fn dedup_faces_from(m: Seq<(Handle<Face>, Seq<Point3>)>, i: int) -> Seq<(
    Handle<Face>,
    Seq<Point3>,
)>
    decreases m.len() - i,
{
    if i < 0 || i >= m.len() {
        Seq::empty()
    } else if face_seen_before(m, i) {
        dedup_faces_from(m, i + 1)
    } else {
        seq![m[i]] + dedup_faces_from(m, i + 1)
    }
}

/// The union of the entries of `m`: for each face identity its first
/// entry, in order of first appearance.
pub open spec fn dedup_faces(m: Seq<(Handle<Face>, Seq<Point3>)>) -> Seq<(
    Handle<Face>,
    Seq<Point3>,
)> {
    dedup_faces_from(m, 0)
}

/// The cache of half-edge approximations, keyed by (identity, tolerance).
/// Entries live for the cache's lifetime; their number counts the
/// discretizations performed through this cache.
pub struct ApproxCache {
    entries: Vec<(u64, u64, HalfEdgeApprox)>,
}

impl ApproxCache {
    /// The recorded entries, in the order they were computed.
    pub closed spec fn spec_entries(&self) -> Seq<(u64, u64, HalfEdgeApprox)> {
        self.entries@
    }

    /// Whether an entry for this identity and tolerance is present.
    pub open spec fn has(&self, id: u64, tol: u64) -> bool {
        exists|i: int| 0 <= i < self.spec_entries().len() && (#[trigger] self.spec_entries()[i]).0
            == id && self.spec_entries()[i].1 == tol
    }

    /// Every entry names a stored half-edge and carries exactly that
    /// edge's points.
    pub open spec fn wf(&self, s: Services) -> bool {
        forall|i: int| 0 <= i < self.spec_entries().len() ==> {
            &&& (#[trigger] self.spec_entries()[i]).0 < s.half_edges@.len()
            &&& self.spec_entries()[i].2.points@ == spec_edge_points(
                s.half_edges@[self.spec_entries()[i].0 as int],
                s,
            )
        }
    }

    /// Create an empty cache.
    pub fn new() -> (r: Self)
        ensures
            r.spec_entries() == Seq::<(u64, u64, HalfEdgeApprox)>::empty(),
    {
        ApproxCache { entries: Vec::new() }
    }

    /// The number of discretizations performed through this cache: one per
    /// entry, since nothing is ever evicted.
    pub fn computations(&self) -> (r: usize)
        ensures
            r == self.spec_entries().len(),
    {
        self.entries.len()
    }

    /// Look up the entry for an identity and tolerance, if present.
    pub fn lookup(&self, id: u64, tol: u64) -> (r: Option<&HalfEdgeApprox>)
        ensures
            match r {
                Some(a) => self.has(id, tol) && exists|i: int|
                    0 <= i < self.spec_entries().len() && #[trigger] self.spec_entries()[i] == (
                    id,
                    tol,
                    *a,
                ),
                None => !self.has(id, tol),
            },
    {
        let n = self.entries.len();
        let mut i: usize = 0;
        while i < n
            invariant
                n == self.spec_entries().len(),
                i <= n,
                forall|j: int| 0 <= j < i ==> !((#[trigger] self.spec_entries()[j]).0 == id
                    && self.spec_entries()[j].1 == tol),
            decreases n - i,
        {
            if self.entries[i].0 == id && self.entries[i].1 == tol {
                return Some(&self.entries[i].2);
            }
            i += 1;
        }
        None
    }

    /// Record a computed approximation.
    pub fn record(&mut self, id: u64, tol: u64, approx: HalfEdgeApprox)
        ensures
            final(self).spec_entries() == old(self).spec_entries().push((id, tol, approx)),
    {
        self.entries.push((id, tol, approx));
    }
}

/// Whether the cache holds every edge of the cycle at this tolerance.
pub open spec fn covers_cycle(cache: ApproxCache, c: Cycle, tol: u64) -> bool {
    forall|i: int| 0 <= i < c.half_edges@.len() ==> cache.has(
        (#[trigger] c.half_edges@[i]).spec_id(),
        tol,
    )
}

/// Whether the cache holds every edge of the face at this tolerance.
pub open spec fn covers_face(cache: ApproxCache, f: Face, tol: u64, s: Services) -> bool {
    let r = s.regions@[f.region.spec_id() as int];
    &&& covers_cycle(cache, s.cycles@[r.exterior.spec_id() as int], tol)
    &&& forall|i: int| 0 <= i < r.interiors@.len() ==> covers_cycle(
        cache,
        s.cycles@[(#[trigger] r.interiors@[i]).spec_id() as int],
        tol,
    )
}

/// Whether the cache holds every edge of the shell at this tolerance.
pub open spec fn covers_shell(cache: ApproxCache, sh: Shell, tol: u64, s: Services) -> bool {
    forall|i: int| 0 <= i < sh.faces@.len() ==> covers_face(
        cache,
        s.faces@[(#[trigger] sh.faces@[i]).spec_id() as int],
        tol,
        s,
    )
}

/// Whether the cache holds every edge of the solid at this tolerance.
pub open spec fn covers_solid(cache: ApproxCache, so: Solid, tol: u64, s: Services) -> bool {
    forall|i: int| 0 <= i < so.shells@.len() ==> covers_shell(
        cache,
        s.shells@[(#[trigger] so.shells@[i]).spec_id() as int],
        tol,
        s,
    )
}

/// A recorded entry stays present as the cache grows.
pub proof fn lemma_cache_has_extends(a: ApproxCache, b: ApproxCache, id: u64, tol: u64)
    requires
        a.has(id, tol),
        store_extends(a.spec_entries(), b.spec_entries()),
    ensures
        b.has(id, tol),
{
    let i = choose|i: int|
        0 <= i < a.spec_entries().len() && (#[trigger] a.spec_entries()[i]).0 == id
            && a.spec_entries()[i].1 == tol;
    assert(b.spec_entries()[i] == a.spec_entries()[i]);
}

/// Approximate one half-edge, through the cache: a hit hands the recorded
/// points back and computes nothing; a miss discretizes the edge and
/// records one entry.
fn approx_half_edge(
    h: &Handle<HalfEdge>,
    tolerance: Tolerance,
    cache: &mut ApproxCache,
    services: &Services,
) -> (r: HalfEdgeApprox)
    requires
        h.spec_id() < services.half_edges@.len(),
        half_edge_valid(services.half_edges@[h.spec_id() as int], *services),
        old(cache).wf(*services),
    ensures
        final(cache).wf(*services),
        store_extends(old(cache).spec_entries(), final(cache).spec_entries()),
        r.points@ == spec_edge_points(services.half_edges@[h.spec_id() as int], *services),
        final(cache).has(h.spec_id(), tolerance.spec_value()),
        old(cache).has(h.spec_id(), tolerance.spec_value()) ==> *final(cache) == *old(cache),
{
    let id = h.id();
    let tol = tolerance.value();
    match cache.lookup(id, tol) {
        Some(a) => {
            let r = a.clone();
            proof {
                let i = choose|i: int|
                    0 <= i < cache.spec_entries().len() && #[trigger] cache.spec_entries()[i] == (
                    id,
                    tol,
                    *a,
                );
            }
            r
        },
        None => {
            let edge = *services.half_edges.get(h);
            let vertex = *services.vertices.get(&edge.start_vertex);
            let mut points: Vec<Point3> = Vec::new();
            points.push(vertex.position);
            let a = HalfEdgeApprox { points };
            let recorded = a.clone();
            cache.record(id, tol, recorded);
            proof {
                let k = old(cache).spec_entries().len() as int;
                assert(cache.spec_entries()[k].0 == id && cache.spec_entries()[k].1 == tol);
            }
            a
        },
    }
}

/// Approximate a cycle: its edges' points, in winding order, each edge
/// through the cache.
fn approx_cycle(
    c: &Cycle,
    tolerance: Tolerance,
    cache: &mut ApproxCache,
    services: &Services,
) -> (r: Vec<Point3>)
    requires
        cycle_valid(*c, *services),
        old(cache).wf(*services),
    ensures
        final(cache).wf(*services),
        store_extends(old(cache).spec_entries(), final(cache).spec_entries()),
        r@ == spec_cycle_points(*c, *services),
        covers_cycle(*final(cache), *c, tolerance.spec_value()),
        covers_cycle(*old(cache), *c, tolerance.spec_value()) ==> *final(cache) == *old(cache),
{
    let ghost cache0 = *cache;
    let ghost tol = tolerance.spec_value();
    let ghost f = |j: int| spec_edge_points(
        services.half_edges@[c.half_edges@[j].spec_id() as int],
        *services,
    );
    let mut points: Vec<Point3> = Vec::new();
    let n = c.half_edges.len();
    let mut i: usize = 0;
    proof {
        assert(points@ =~= Seq::new(0nat, f).flatten());
    }
    while i < n
        invariant
            n == c.half_edges@.len(),
            i <= n,
            cycle_valid(*c, *services),
            cache.wf(*services),
            store_extends(cache0.spec_entries(), cache.spec_entries()),
            f == |j: int| spec_edge_points(
                services.half_edges@[c.half_edges@[j].spec_id() as int],
                *services,
            ),
            tol == tolerance.spec_value(),
            points@ == Seq::new(i as nat, f).flatten(),
            forall|j: int| 0 <= j < i ==> cache.has((#[trigger] c.half_edges@[j]).spec_id(), tol),
            covers_cycle(cache0, *c, tol) ==> *cache == cache0,
        decreases n - i,
    {
        let h: Handle<HalfEdge> = *c.half_edges.nth(i).unwrap();
        let ghost cache_pre = *cache;
        let a = approx_half_edge(&h, tolerance, cache, services);
        let mut ap = a;
        points.append(&mut ap.points);
        proof {
            assert(Seq::new((i + 1) as nat, f) =~= Seq::new(i as nat, f).push(f(i as int)));
            Seq::new(i as nat, f).lemma_flatten_push(f(i as int));
            assert(points@ =~= Seq::new((i + 1) as nat, f).flatten());
            assert forall|j: int| 0 <= j < i + 1 implies cache.has(
                (#[trigger] c.half_edges@[j]).spec_id(),
                tol,
            ) by {
                if j < i {
                    lemma_cache_has_extends(cache_pre, *cache, c.half_edges@[j].spec_id(), tol);
                }
            }
        }
        i += 1;
    }
    proof {
        assert(Seq::new(n as nat, f) =~= Seq::new(
            c.half_edges@.len(),
            |j: int| spec_edge_points(
                services.half_edges@[c.half_edges@[j].spec_id() as int],
                *services,
            ),
        ));
    }
    points
}

/// Approximate a face: its exterior cycle's points, then each interior
/// cycle's, every edge through the cache.
fn approx_face(
    fh: &Handle<Face>,
    tolerance: Tolerance,
    cache: &mut ApproxCache,
    services: &Services,
) -> (r: FaceApprox)
    requires
        fh.spec_id() < services.faces@.len(),
        face_valid(services.faces@[fh.spec_id() as int], *services),
        old(cache).wf(*services),
    ensures
        final(cache).wf(*services),
        store_extends(old(cache).spec_entries(), final(cache).spec_entries()),
        r.face == *fh,
        r.points@ == spec_face_points(services.faces@[fh.spec_id() as int], *services),
        covers_face(
            *final(cache),
            services.faces@[fh.spec_id() as int],
            tolerance.spec_value(),
            *services,
        ),
        covers_face(
            *old(cache),
            services.faces@[fh.spec_id() as int],
            tolerance.spec_value(),
            *services,
        ) ==> *final(cache) == *old(cache),
{
    let ghost cache0 = *cache;
    let ghost tol = tolerance.spec_value();
    let face = *services.faces.get(fh);
    let region = services.regions.get(&face.region);
    let ghost g = |j: int| spec_cycle_points(
        services.cycles@[region.interiors@[j].spec_id() as int],
        *services,
    );
    let mut points = approx_cycle(services.cycles.get(&region.exterior), tolerance, cache, services);
    let n = region.interiors.len();
    let mut i: usize = 0;
    proof {
        assert(Seq::new(0nat, g).flatten() =~= Seq::<Point3>::empty());
        assert(points@ =~= spec_cycle_points(
            services.cycles@[region.exterior.spec_id() as int],
            *services,
        ) + Seq::new(0nat, g).flatten());
    }
    while i < n
        invariant
            n == region.interiors@.len(),
            i <= n,
            face == services.faces@[fh.spec_id() as int],
            *region == services.regions@[face.region.spec_id() as int],
            face_valid(face, *services),
            cache.wf(*services),
            store_extends(cache0.spec_entries(), cache.spec_entries()),
            g == |j: int| spec_cycle_points(
                services.cycles@[region.interiors@[j].spec_id() as int],
                *services,
            ),
            tol == tolerance.spec_value(),
            points@ == spec_cycle_points(
                services.cycles@[region.exterior.spec_id() as int],
                *services,
            ) + Seq::new(i as nat, g).flatten(),
            covers_cycle(*cache, services.cycles@[region.exterior.spec_id() as int], tol),
            forall|j: int| 0 <= j < i ==> covers_cycle(
                *cache,
                services.cycles@[(#[trigger] region.interiors@[j]).spec_id() as int],
                tol,
            ),
            covers_face(cache0, face, tol, *services) ==> *cache == cache0,
        decreases n - i,
    {
        let ch: Handle<Cycle> = *region.interiors.nth(i).unwrap();
        let ghost cache_pre = *cache;
        let mut cp = approx_cycle(services.cycles.get(&ch), tolerance, cache, services);
        points.append(&mut cp);
        proof {
            assert(Seq::new((i + 1) as nat, g) =~= Seq::new(i as nat, g).push(g(i as int)));
            Seq::new(i as nat, g).lemma_flatten_push(g(i as int));
            assert(points@ =~= spec_cycle_points(
                services.cycles@[region.exterior.spec_id() as int],
                *services,
            ) + Seq::new((i + 1) as nat, g).flatten());
            lemma_covers_cycle_extends(
                cache_pre,
                *cache,
                services.cycles@[region.exterior.spec_id() as int],
                tol,
            );
            assert forall|j: int| 0 <= j < i + 1 implies covers_cycle(
                *cache,
                services.cycles@[(#[trigger] region.interiors@[j]).spec_id() as int],
                tol,
            ) by {
                if j < i {
                    lemma_covers_cycle_extends(
                        cache_pre,
                        *cache,
                        services.cycles@[region.interiors@[j].spec_id() as int],
                        tol,
                    );
                }
            }
        }
        i += 1;
    }
    proof {
        assert(Seq::new(n as nat, g) =~= Seq::new(
            services.regions@[face.region.spec_id() as int].interiors@.len(),
            |j: int| spec_cycle_points(
                services.cycles@[services.regions@[face.region.spec_id() as int].interiors@[j].spec_id() as int],
                *services,
            ),
        ));
    }
    FaceApprox { face: *fh, points }
}

/// Coverage of a cycle is preserved as the cache grows.
pub proof fn lemma_covers_cycle_extends(a: ApproxCache, b: ApproxCache, c: Cycle, tol: u64)
    requires
        covers_cycle(a, c, tol),
        store_extends(a.spec_entries(), b.spec_entries()),
    ensures
        covers_cycle(b, c, tol),
{
    assert forall|i: int| 0 <= i < c.half_edges@.len() implies b.has(
        (#[trigger] c.half_edges@[i]).spec_id(),
        tol,
    ) by {
        lemma_cache_has_extends(a, b, c.half_edges@[i].spec_id(), tol);
    }
}

/// Coverage of a face is preserved as the cache grows.
pub proof fn lemma_covers_face_extends(a: ApproxCache, b: ApproxCache, f: Face, tol: u64, s: Services)
    requires
        covers_face(a, f, tol, s),
        store_extends(a.spec_entries(), b.spec_entries()),
    ensures
        covers_face(b, f, tol, s),
{
    let r = s.regions@[f.region.spec_id() as int];
    lemma_covers_cycle_extends(a, b, s.cycles@[r.exterior.spec_id() as int], tol);
    assert forall|i: int| 0 <= i < r.interiors@.len() implies covers_cycle(
        b,
        s.cycles@[(#[trigger] r.interiors@[i]).spec_id() as int],
        tol,
    ) by {
        lemma_covers_cycle_extends(a, b, s.cycles@[r.interiors@[i].spec_id() as int], tol);
    }
}

/// Coverage of a shell is preserved as the cache grows.
pub proof fn lemma_covers_shell_extends(
    a: ApproxCache,
    b: ApproxCache,
    sh: Shell,
    tol: u64,
    s: Services,
)
    requires
        covers_shell(a, sh, tol, s),
        store_extends(a.spec_entries(), b.spec_entries()),
    ensures
        covers_shell(b, sh, tol, s),
{
    assert forall|i: int| 0 <= i < sh.faces@.len() implies covers_face(
        b,
        s.faces@[(#[trigger] sh.faces@[i]).spec_id() as int],
        tol,
        s,
    ) by {
        lemma_covers_face_extends(a, b, s.faces@[sh.faces@[i].spec_id() as int], tol, s);
    }
}

/// Approximate a shell: one face approximation per face, in order.
fn approx_shell(
    sh: &Shell,
    tolerance: Tolerance,
    cache: &mut ApproxCache,
    services: &Services,
) -> (r: Vec<FaceApprox>)
    requires
        shell_valid(*sh, *services),
        old(cache).wf(*services),
    ensures
        final(cache).wf(*services),
        store_extends(old(cache).spec_entries(), final(cache).spec_entries()),
        approx_matches(r@, spec_shell_approx(*sh, *services)),
        covers_shell(*final(cache), *sh, tolerance.spec_value(), *services),
        covers_shell(*old(cache), *sh, tolerance.spec_value(), *services) ==> *final(cache)
            == *old(cache),
{
    let ghost cache0 = *cache;
    let ghost tol = tolerance.spec_value();
    let mut out: Vec<FaceApprox> = Vec::new();
    let n = sh.faces.len();
    let mut i: usize = 0;
    while i < n
        invariant
            n == sh.faces@.len(),
            i <= n,
            shell_valid(*sh, *services),
            cache.wf(*services),
            store_extends(cache0.spec_entries(), cache.spec_entries()),
            tol == tolerance.spec_value(),
            out@.len() == i as int,
            forall|j: int| 0 <= j < i ==> (#[trigger] out@[j]).face == sh.faces@[j]
                && out@[j].points@ == spec_face_points(
                services.faces@[sh.faces@[j].spec_id() as int],
                *services,
            ),
            forall|j: int| 0 <= j < i ==> covers_face(
                *cache,
                services.faces@[(#[trigger] sh.faces@[j]).spec_id() as int],
                tol,
                *services,
            ),
            covers_shell(cache0, *sh, tol, *services) ==> *cache == cache0,
        decreases n - i,
    {
        let fh: Handle<Face> = *sh.faces.nth(i).unwrap();
        let ghost cache_pre = *cache;
        let fa = approx_face(&fh, tolerance, cache, services);
        out.push(fa);
        proof {
            assert forall|j: int| 0 <= j < i + 1 implies covers_face(
                *cache,
                services.faces@[(#[trigger] sh.faces@[j]).spec_id() as int],
                tol,
                *services,
            ) by {
                if j < i {
                    lemma_covers_face_extends(
                        cache_pre,
                        *cache,
                        services.faces@[sh.faces@[j].spec_id() as int],
                        tol,
                        *services,
                    );
                }
            }
        }
        i += 1;
    }
    out
}

impl Solid {
    /// Approximate the solid under a tolerance: the union of its shells'
    /// face approximations, every half-edge discretized through the cache.
    /// A face reachable through several shells appears exactly once, at its
    /// first position. The result is a pure function of the solid and the
    /// stores; a cache that already covers the solid at this tolerance is
    /// left untouched, so nothing is recomputed.
    pub fn approx_with_cache(
        &self,
        tolerance: Tolerance,
        cache: &mut ApproxCache,
        services: &Services,
    ) -> (r: Vec<FaceApprox>)
        requires
            solid_valid(*self, *services),
            old(cache).wf(*services),
        ensures
            final(cache).wf(*services),
            store_extends(old(cache).spec_entries(), final(cache).spec_entries()),
            approx_matches(r@, dedup_faces(spec_solid_approx(*self, *services))),
            forall|i: int, j: int| 0 <= i < j < r@.len() ==> (#[trigger] r@[i]).face.spec_id()
                != (#[trigger] r@[j]).face.spec_id(),
            covers_solid(*final(cache), *self, tolerance.spec_value(), *services),
            covers_solid(*old(cache), *self, tolerance.spec_value(), *services) ==> *final(cache)
                == *old(cache),
    {
        let ghost cache0 = *cache;
        let ghost tol = tolerance.spec_value();
        let ghost m = |j: int| spec_shell_approx(
            services.shells@[self.shells@[j].spec_id() as int],
            *services,
        );
        let mut all: Vec<FaceApprox> = Vec::new();
        let n = self.shells.len();
        let mut i: usize = 0;
        proof {
            assert(Seq::new(0nat, m).flatten() =~= Seq::<(Handle<Face>, Seq<Point3>)>::empty());
        }
        while i < n
            invariant
                n == self.shells@.len(),
                i <= n,
                solid_valid(*self, *services),
                cache.wf(*services),
                store_extends(cache0.spec_entries(), cache.spec_entries()),
                m == |j: int| spec_shell_approx(
                    services.shells@[self.shells@[j].spec_id() as int],
                    *services,
                ),
                tol == tolerance.spec_value(),
                approx_matches(all@, Seq::new(i as nat, m).flatten()),
                forall|j: int| 0 <= j < i ==> covers_shell(
                    *cache,
                    services.shells@[(#[trigger] self.shells@[j]).spec_id() as int],
                    tol,
                    *services,
                ),
                covers_solid(cache0, *self, tol, *services) ==> *cache == cache0,
            decreases n - i,
        {
            let shh: Handle<Shell> = *self.shells.nth(i).unwrap();
            let ghost cache_pre = *cache;
            let shell = services.shells.get(&shh);
            let mut sa = approx_shell(shell, tolerance, cache, services);
            let ghost all_pre = all@;
            let ghost sa_view = sa@;
            all.append(&mut sa);
            proof {
                assert(Seq::new((i + 1) as nat, m) =~= Seq::new(i as nat, m).push(m(i as int)));
                Seq::new(i as nat, m).lemma_flatten_push(m(i as int));
                lemma_approx_matches_concat(
                    all_pre,
                    sa_view,
                    Seq::new(i as nat, m).flatten(),
                    m(i as int),
                );
                assert forall|j: int| 0 <= j < i + 1 implies covers_shell(
                    *cache,
                    services.shells@[(#[trigger] self.shells@[j]).spec_id() as int],
                    tol,
                    *services,
                ) by {
                    if j < i {
                        lemma_covers_shell_extends(
                            cache_pre,
                            *cache,
                            services.shells@[self.shells@[j].spec_id() as int],
                            tol,
                            *services,
                        );
                    }
                }
            }
            i += 1;
        }
        let ghost model = spec_solid_approx(*self, *services);
        proof {
            assert(Seq::new(n as nat, m) =~= Seq::new(
                self.shells@.len(),
                |j: int| spec_shell_approx(
                    services.shells@[self.shells@[j].spec_id() as int],
                    *services,
                ),
            ));
            assert(approx_matches(all@, model));
        }

        // Keep, for each face identity, its first entry: a face reachable
        // through several shells is listed once.
        let mut out: Vec<FaceApprox> = Vec::new();
        let ghost mut kept: Seq<(Handle<Face>, Seq<Point3>)> = Seq::empty();
        let n2 = all.len();
        let mut i2: usize = 0;
        proof {
            assert(kept + dedup_faces_from(model, 0) =~= dedup_faces_from(model, 0));
        }
        while i2 < n2
            invariant
                n2 == all@.len(),
                i2 <= n2,
                approx_matches(all@, model),
                approx_matches(out@, kept),
                dedup_faces(model) == kept + dedup_faces_from(model, i2 as int),
                forall|k1: int, k2: int| 0 <= k1 < k2 < out@.len() ==> (
                #[trigger] out@[k1]).face.spec_id() != (#[trigger] out@[k2]).face.spec_id(),
                forall|k: int| 0 <= k < out@.len() ==> exists|j: int| 0 <= j < i2 && model[j].0.spec_id()
                    == (#[trigger] out@[k]).face.spec_id(),
            decreases n2 - i2,
        {
            let mut seen = false;
            let mut j: usize = 0;
            while j < i2
                invariant
                    j <= i2 < n2,
                    n2 == all@.len(),
                    seen == exists|jj: int| 0 <= jj < j && (#[trigger] all@[jj]).face.spec_id()
                        == all@[i2 as int].face.spec_id(),
                decreases i2 - j,
            {
                if all[j].face.id() == all[i2].face.id() {
                    seen = true;
                }
                j += 1;
            }
            proof {
                assert(seen == face_seen_before(model, i2 as int)) by {
                    if seen {
                        let jj = choose|jj: int|
                            0 <= jj < i2 && (#[trigger] all@[jj]).face.spec_id() == all@[i2 as int].face.spec_id();
                        assert(model[jj].0.spec_id() == model[i2 as int].0.spec_id());
                    }
                    if face_seen_before(model, i2 as int) {
                        let jj = choose|jj: int|
                            0 <= jj < i2 as int && (#[trigger] model[jj]).0.spec_id() == model[i2 as int].0.spec_id();
                        assert(all@[jj].face.spec_id() == all@[i2 as int].face.spec_id());
                    }
                }
            }
            if !seen {
                out.push(all[i2].clone());
                proof {
                    let ghost kept_old = kept;
                    kept = kept.push(model[i2 as int]);
                    assert(dedup_faces_from(model, i2 as int) == seq![model[i2 as int]]
                        + dedup_faces_from(model, i2 as int + 1));
                    assert(kept_old + dedup_faces_from(model, i2 as int) =~= kept
                        + dedup_faces_from(model, i2 as int + 1));
                    assert forall|k1: int, k2: int| 0 <= k1 < k2 < out@.len() implies (
                    #[trigger] out@[k1]).face.spec_id() != (#[trigger] out@[k2]).face.spec_id() by {
                        if k2 == out@.len() - 1 && out@[k1].face.spec_id() == out@[k2].face.spec_id() {
                            let jw = choose|jw: int|
                                0 <= jw < i2 && model[jw].0.spec_id() == out@[k1].face.spec_id();
                            assert(face_seen_before(model, i2 as int));
                        }
                    }
                    assert forall|k: int| 0 <= k < out@.len() implies exists|jj: int|
                        0 <= jj < i2 + 1 && model[jj].0.spec_id() == (
                    #[trigger] out@[k]).face.spec_id() by {
                        if k == out@.len() - 1 {
                            assert(model[i2 as int].0.spec_id() == out@[k].face.spec_id());
                        } else {
                            let jw = choose|jw: int|
                                0 <= jw < i2 && model[jw].0.spec_id() == out@[k].face.spec_id();
                            assert(0 <= jw < i2 + 1 && model[jw].0.spec_id() == out@[k].face.spec_id());
                        }
                    }
                }
            } else {
                proof {
                    assert(dedup_faces_from(model, i2 as int) == dedup_faces_from(
                        model,
                        i2 as int + 1,
                    ));
                }
            }
            i2 += 1;
        }
        proof {
            assert(dedup_faces_from(model, n2 as int) == Seq::<(Handle<Face>, Seq<Point3>)>::empty());
            assert(dedup_faces(model) =~= kept);
        }
        out
    }
}

/// Matching face approximations concatenate.
pub proof fn lemma_approx_matches_concat(
    a: Seq<FaceApprox>,
    b: Seq<FaceApprox>,
    ma: Seq<(Handle<Face>, Seq<Point3>)>,
    mb: Seq<(Handle<Face>, Seq<Point3>)>,
)
    requires
        approx_matches(a, ma),
        approx_matches(b, mb),
    ensures
        approx_matches(a + b, ma + mb),
{
    assert forall|i: int| 0 <= i < (a + b).len() implies ((#[trigger] (a + b)[i]).face == (ma
        + mb)[i].0 && (a + b)[i].points@ == (ma + mb)[i].1) by {
        if i < a.len() {
            assert((a + b)[i] == a[i]);
            assert((ma + mb)[i] == ma[i]);
        } else {
            assert((a + b)[i] == b[i - a.len()]);
            assert((ma + mb)[i] == mb[i - a.len()]);
        }
    }
}

} // verus!
