//! Sweeping 2D topology into solids.
//!
//! Sweeping a sketch along a path builds, for each of its regions, a shell:
//! a bottom cap that shares the region itself by handle, a top cap whose
//! region is a translated copy, and one side face per edge of the region's
//! boundaries. Sweeping is purely constructive: every new object is
//! inserted into the stores, and nothing already stored is touched.

use vstd::prelude::*;
use crate::geometry::{spec_translated, translate_point, translation_fits, Point3, Vector3};
use crate::object_set::{distinct_ids, ObjectSet};
use crate::objects::{Cycle, Face, HalfEdge, Region, Shell, Sketch, Solid, Surface, Vertex};
use crate::services::{
    cycle_valid, face_valid, half_edge_valid, lemma_cycle_valid_extend, lemma_face_valid_extend,
    lemma_region_valid_extend, region_valid, services_extend, shell_valid, sketch_valid,
    solid_valid, Services,
};
use crate::storage::Handle;

verus! {

/// Whether every vertex position of the cycle can be translated by `path`
/// within the coordinate range.
pub open spec fn cycle_fits(c: Cycle, s: Services, path: Vector3) -> bool {
    forall|i: int| 0 <= i < c.half_edges@.len() ==> translation_fits(
        s.vertices@[s.half_edges@[(#[trigger] c.half_edges@[i]).spec_id() as int].start_vertex.spec_id() as int].position,
        path,
    )
}

/// Whether every vertex position of the region can be translated by `path`
/// within the coordinate range.
pub open spec fn region_fits(r: Region, s: Services, path: Vector3) -> bool {
    &&& cycle_fits(s.cycles@[r.exterior.spec_id() as int], s, path)
    &&& forall|i: int| 0 <= i < r.interiors@.len() ==> cycle_fits(
        s.cycles@[(#[trigger] r.interiors@[i]).spec_id() as int],
        s,
        path,
    )
}

/// Whether every vertex position of the sketch can be translated by `path`
/// within the coordinate range.
pub open spec fn sketch_fits(sk: Sketch, s: Services, path: Vector3) -> bool {
    forall|i: int| 0 <= i < sk.regions@.len() ==> region_fits(
        s.regions@[(#[trigger] sk.regions@[i]).spec_id() as int],
        s,
        path,
    )
}

/// Whether `c1`, read at `s_new`, is `c0`, read at `s_old`, with every
/// vertex position translated by `path`, edge for edge and in order.
pub open spec fn cycle_translated(
    c0: Cycle,
    c1: Cycle,
    path: Vector3,
    s_old: Services,
    s_new: Services,
) -> bool {
    &&& c1.half_edges@.len() == c0.half_edges@.len()
    &&& forall|i: int| 0 <= i < c0.half_edges@.len() ==> {
        let e0 = s_old.half_edges@[c0.half_edges@[i].spec_id() as int];
        let e1 = s_new.half_edges@[(#[trigger] c1.half_edges@[i]).spec_id() as int];
        &&& c1.half_edges@[i].spec_id() < s_new.half_edges@.len()
        &&& e1.start_vertex.spec_id() < s_new.vertices@.len()
        &&& s_new.vertices@[e1.start_vertex.spec_id() as int].position == spec_translated(
            s_old.vertices@[e0.start_vertex.spec_id() as int].position,
            path,
        )
    }
}

/// Whether `r1`, read at `s_new`, is `r0`, read at `s_old`, with every
/// boundary cycle translated by `path`, in order, and the color kept.
pub open spec fn region_translated(
    r0: Region,
    r1: Region,
    path: Vector3,
    s_old: Services,
    s_new: Services,
) -> bool {
    &&& r1.color == r0.color
    &&& r1.interiors@.len() == r0.interiors@.len()
    &&& r1.exterior.spec_id() < s_new.cycles@.len()
    &&& cycle_translated(
        s_old.cycles@[r0.exterior.spec_id() as int],
        s_new.cycles@[r1.exterior.spec_id() as int],
        path,
        s_old,
        s_new,
    )
    &&& forall|i: int| 0 <= i < r0.interiors@.len() ==> {
        &&& (#[trigger] r1.interiors@[i]).spec_id() < s_new.cycles@.len()
        &&& cycle_translated(
            s_old.cycles@[r0.interiors@[i].spec_id() as int],
            s_new.cycles@[r1.interiors@[i].spec_id() as int],
            path,
            s_old,
            s_new,
        )
    }
}

/// The number of half-edges of the cycles named by a sequence of handles.
pub open spec fn cycles_edge_sum(hs: Seq<Handle<Cycle>>, s: Services) -> int
    decreases hs.len(),
{
    if hs.len() == 0 {
        0
    } else {
        s.cycles@[hs[0].spec_id() as int].half_edges@.len() + cycles_edge_sum(hs.drop_first(), s)
    }
}

/// The number of half-edges of a region's boundaries: its exterior's plus
/// all of its interiors'.
pub open spec fn region_edge_count(r: Region, s: Services) -> int {
    s.cycles@[r.exterior.spec_id() as int].half_edges@.len() + cycles_edge_sum(r.interiors@, s)
}

/// Summing one more cycle adds that cycle's edge count.
pub proof fn lemma_cycles_edge_sum_push(hs: Seq<Handle<Cycle>>, h: Handle<Cycle>, s: Services)
    ensures
        cycles_edge_sum(hs.push(h), s) == cycles_edge_sum(hs, s) + s.cycles@[h.spec_id() as int].half_edges@.len(),
    decreases hs.len(),
{
    if hs.len() == 0 {
        assert(hs.push(h).drop_first() =~= hs);
    } else {
        assert(hs.push(h).drop_first() =~= hs.drop_first().push(h));
        lemma_cycles_edge_sum_push(hs.drop_first(), h, s);
    }
}

/// The position of a half-edge's start vertex, read at `s`.
pub open spec fn edge_start_position(h: Handle<HalfEdge>, s: Services) -> Point3 {
    s.vertices@[s.half_edges@[h.spec_id() as int].start_vertex.spec_id() as int].position
}

/// Whether `f`, read at `s`, is the side face spanning the segment from
/// `p0` to `p1` and its translated copy: a region without interiors whose
/// exterior is a four-edge loop through `p0`, `p1`, `p1 + path` and
/// `p0 + path`, in that winding order.
pub open spec fn side_face_ok(f: Face, p0: Point3, p1: Point3, path: Vector3, s: Services) -> bool {
    let r = s.regions@[f.region.spec_id() as int];
    let cy = s.cycles@[r.exterior.spec_id() as int];
    &&& r.interiors@.len() == 0
    &&& cy.half_edges@.len() == 4
    &&& edge_start_position(cy.half_edges@[0], s) == p0
    &&& edge_start_position(cy.half_edges@[1], s) == p1
    &&& edge_start_position(cy.half_edges@[2], s) == spec_translated(p1, path)
    &&& edge_start_position(cy.half_edges@[3], s) == spec_translated(p0, path)
}

/// A start position does not depend on entries appended after the edge.
pub proof fn lemma_edge_start_position_stable(h: Handle<HalfEdge>, a: Services, b: Services)
    requires
        h.spec_id() < a.half_edges@.len(),
        half_edge_valid(a.half_edges@[h.spec_id() as int], a),
        services_extend(a, b),
    ensures
        edge_start_position(h, b) == edge_start_position(h, a),
{
    assert(b.half_edges@[h.spec_id() as int] == a.half_edges@[h.spec_id() as int]);
    let vid = a.half_edges@[h.spec_id() as int].start_vertex.spec_id() as int;
    assert(b.vertices@[vid] == a.vertices@[vid]);
}

/// A side-face description is preserved as the stores grow.
pub proof fn lemma_side_face_ok_extend(
    f: Face,
    p0: Point3,
    p1: Point3,
    path: Vector3,
    a: Services,
    b: Services,
)
    requires
        face_valid(f, a),
        side_face_ok(f, p0, p1, path, a),
        services_extend(a, b),
    ensures
        side_face_ok(f, p0, p1, path, b),
{
    let r = a.regions@[f.region.spec_id() as int];
    assert(b.regions@[f.region.spec_id() as int] == r);
    let cy = a.cycles@[r.exterior.spec_id() as int];
    assert(b.cycles@[r.exterior.spec_id() as int] == cy);
    lemma_edge_start_position_stable(cy.half_edges@[0], a, b);
    lemma_edge_start_position_stable(cy.half_edges@[1], a, b);
    lemma_edge_start_position_stable(cy.half_edges@[2], a, b);
    lemma_edge_start_position_stable(cy.half_edges@[3], a, b);
}

/// Whether a cycle's positions fit under translation does not depend on
/// entries appended after the cycle's children.
pub proof fn lemma_cycle_fits_stable(c: Cycle, path: Vector3, a: Services, b: Services)
    requires
        cycle_valid(c, a),
        services_extend(a, b),
    ensures
        cycle_fits(c, b, path) == cycle_fits(c, a, path),
{
    assert forall|i: int| 0 <= i < c.half_edges@.len() implies {
        let id = (#[trigger] c.half_edges@[i]).spec_id() as int;
        b.half_edges@[id] == a.half_edges@[id] && b.vertices@[a.half_edges@[id].start_vertex.spec_id() as int]
            == a.vertices@[a.half_edges@[id].start_vertex.spec_id() as int]
    } by {
    }
}

/// Whether a region's positions fit under translation does not depend on
/// entries appended after the region's children.
pub proof fn lemma_region_fits_stable(r: Region, path: Vector3, a: Services, b: Services)
    requires
        region_valid(r, a),
        services_extend(a, b),
    ensures
        region_fits(r, b, path) == region_fits(r, a, path),
{
    let eid = r.exterior.spec_id() as int;
    assert(b.cycles@[eid] == a.cycles@[eid]);
    lemma_cycle_fits_stable(a.cycles@[eid], path, a, b);
    assert forall|i: int| 0 <= i < r.interiors@.len() implies cycle_fits(
        b.cycles@[(#[trigger] r.interiors@[i]).spec_id() as int],
        b,
        path,
    ) == cycle_fits(a.cycles@[r.interiors@[i].spec_id() as int], a, path) by {
        let id = r.interiors@[i].spec_id() as int;
        assert(b.cycles@[id] == a.cycles@[id]);
        lemma_cycle_fits_stable(a.cycles@[id], path, a, b);
    }
}

/// A translated-cycle relation is preserved as the new stores grow.
pub proof fn lemma_cycle_translated_extend(
    c0: Cycle,
    c1: Cycle,
    path: Vector3,
    s_old: Services,
    a: Services,
    b: Services,
)
    requires
        cycle_translated(c0, c1, path, s_old, a),
        services_extend(a, b),
    ensures
        cycle_translated(c0, c1, path, s_old, b),
{
    assert forall|i: int| 0 <= i < c0.half_edges@.len() implies {
        let e0 = s_old.half_edges@[c0.half_edges@[i].spec_id() as int];
        let e1 = b.half_edges@[(#[trigger] c1.half_edges@[i]).spec_id() as int];
        &&& c1.half_edges@[i].spec_id() < b.half_edges@.len()
        &&& e1.start_vertex.spec_id() < b.vertices@.len()
        &&& b.vertices@[e1.start_vertex.spec_id() as int].position == spec_translated(
            s_old.vertices@[e0.start_vertex.spec_id() as int].position,
            path,
        )
    } by {
        let id = c1.half_edges@[i].spec_id() as int;
        assert(b.half_edges@[id] == a.half_edges@[id]);
        assert(b.vertices@[a.half_edges@[id].start_vertex.spec_id() as int] == a.vertices@[a.half_edges@[id].start_vertex.spec_id() as int]);
    }
}

/// A translated-cycle relation stated at grown stores also holds at the
/// stores the old cycle was read from.
pub proof fn lemma_cycle_translated_shrink(
    c0: Cycle,
    c1: Cycle,
    path: Vector3,
    a: Services,
    b: Services,
    s_new: Services,
)
    requires
        cycle_valid(c0, a),
        services_extend(a, b),
        cycle_translated(c0, c1, path, b, s_new),
    ensures
        cycle_translated(c0, c1, path, a, s_new),
{
    assert forall|i: int| 0 <= i < c0.half_edges@.len() implies {
        let id = (#[trigger] c0.half_edges@[i]).spec_id() as int;
        b.half_edges@[id] == a.half_edges@[id] && b.vertices@[a.half_edges@[id].start_vertex.spec_id() as int]
            == a.vertices@[a.half_edges@[id].start_vertex.spec_id() as int]
    } by {
    }
}

/// A translated-region relation is preserved as the new stores grow.
pub proof fn lemma_region_translated_extend(
    r0: Region,
    r1: Region,
    path: Vector3,
    s_old: Services,
    a: Services,
    b: Services,
)
    requires
        region_translated(r0, r1, path, s_old, a),
        services_extend(a, b),
    ensures
        region_translated(r0, r1, path, s_old, b),
{
    assert(b.cycles@[r1.exterior.spec_id() as int] == a.cycles@[r1.exterior.spec_id() as int]);
    lemma_cycle_translated_extend(
        s_old.cycles@[r0.exterior.spec_id() as int],
        a.cycles@[r1.exterior.spec_id() as int],
        path,
        s_old,
        a,
        b,
    );
    assert forall|i: int| 0 <= i < r0.interiors@.len() implies {
        &&& (#[trigger] r1.interiors@[i]).spec_id() < b.cycles@.len()
        &&& cycle_translated(
            s_old.cycles@[r0.interiors@[i].spec_id() as int],
            b.cycles@[r1.interiors@[i].spec_id() as int],
            path,
            s_old,
            b,
        )
    } by {
        let id = r1.interiors@[i].spec_id() as int;
        assert(b.cycles@[id] == a.cycles@[id]);
        lemma_cycle_translated_extend(
            s_old.cycles@[r0.interiors@[i].spec_id() as int],
            a.cycles@[id],
            path,
            s_old,
            a,
            b,
        );
    }
}

/// A translated-region relation stated at grown stores also holds at the
/// stores the old region was read from.
pub proof fn lemma_region_translated_shrink(
    r0: Region,
    r1: Region,
    path: Vector3,
    a: Services,
    b: Services,
    s_new: Services,
)
    requires
        region_valid(r0, a),
        services_extend(a, b),
        region_translated(r0, r1, path, b, s_new),
    ensures
        region_translated(r0, r1, path, a, s_new),
{
    let eid = r0.exterior.spec_id() as int;
    assert(b.cycles@[eid] == a.cycles@[eid]);
    lemma_cycle_translated_shrink(
        a.cycles@[eid],
        s_new.cycles@[r1.exterior.spec_id() as int],
        path,
        a,
        b,
        s_new,
    );
    assert forall|i: int| 0 <= i < r0.interiors@.len() implies {
        &&& (#[trigger] r1.interiors@[i]).spec_id() < s_new.cycles@.len()
        &&& cycle_translated(
            a.cycles@[r0.interiors@[i].spec_id() as int],
            s_new.cycles@[r1.interiors@[i].spec_id() as int],
            path,
            a,
            s_new,
        )
    } by {
        let id = r0.interiors@[i].spec_id() as int;
        assert(b.cycles@[id] == a.cycles@[id]);
        lemma_cycle_translated_shrink(
            a.cycles@[id],
            s_new.cycles@[r1.interiors@[i].spec_id() as int],
            path,
            a,
            b,
            s_new,
        );
    }
}

/// A sum of cycle edge counts does not depend on entries appended after
/// the cycles named.
pub proof fn lemma_cycles_edge_sum_stable(hs: Seq<Handle<Cycle>>, a: Services, b: Services)
    requires
        forall|i: int| 0 <= i < hs.len() ==> (#[trigger] hs[i]).spec_id() < a.cycles@.len(),
        services_extend(a, b),
    ensures
        cycles_edge_sum(hs, b) == cycles_edge_sum(hs, a),
    decreases hs.len(),
{
    if hs.len() > 0 {
        assert(b.cycles@[hs[0].spec_id() as int] == a.cycles@[hs[0].spec_id() as int]);
        assert forall|i: int| 0 <= i < hs.drop_first().len() implies (#[trigger] hs.drop_first()[i]).spec_id()
            < a.cycles@.len() by {
            assert(hs.drop_first()[i] == hs[i + 1]);
        }
        lemma_cycles_edge_sum_stable(hs.drop_first(), a, b);
    }
}

/// A region's edge count does not depend on entries appended after the
/// region's children.
pub proof fn lemma_region_edge_count_stable(r: Region, a: Services, b: Services)
    requires
        region_valid(r, a),
        services_extend(a, b),
    ensures
        region_edge_count(r, b) == region_edge_count(r, a),
{
    assert(b.cycles@[r.exterior.spec_id() as int] == a.cycles@[r.exterior.spec_id() as int]);
    lemma_cycles_edge_sum_stable(r.interiors@, a, b);
}

/// Build the translated copy of a cycle: one new vertex and one new
/// half-edge per edge, in order, and a new cycle over them, all inserted.
fn sweep_cycle_translated(c: &Cycle, path: Vector3, services: &mut Services) -> (ch: Handle<Cycle>)
    requires
        cycle_valid(*c, *old(services)),
        cycle_fits(*c, *old(services), path),
    ensures
        services_extend(*old(services), *final(services)),
        old(services).cycles@.len() <= ch.spec_id() < final(services).cycles@.len(),
        cycle_valid(final(services).cycles@[ch.spec_id() as int], *final(services)),
        cycle_translated(
            *c,
            final(services).cycles@[ch.spec_id() as int],
            path,
            *old(services),
            *final(services),
        ),
    {
        let ghost s0 = *services;
        let mut edges: Vec<Handle<HalfEdge>> = Vec::new();
        let n = c.half_edges.len();
        let mut i: usize = 0;
        while i < n
            invariant
                n == c.half_edges@.len(),
                i <= n,
                cycle_valid(*c, s0),
                cycle_fits(*c, s0, path),
                services_extend(s0, *services),
                edges@.len() == i as int,
                forall|j1: int, j2: int| 0 <= j1 < j2 < i ==> (#[trigger] edges@[j1]).spec_id() < (
                #[trigger] edges@[j2]).spec_id(),
                forall|j: int| 0 <= j < i ==> {
                    let e0 = s0.half_edges@[c.half_edges@[j].spec_id() as int];
                    let e1 = services.half_edges@[(#[trigger] edges@[j]).spec_id() as int];
                    &&& edges@[j].spec_id() < services.half_edges@.len()
                    &&& e1.start_vertex.spec_id() < services.vertices@.len()
                    &&& services.vertices@[e1.start_vertex.spec_id() as int].position
                        == spec_translated(
                        s0.vertices@[e0.start_vertex.spec_id() as int].position,
                        path,
                    )
                },
            decreases n - i,
        {
            let h: Handle<HalfEdge> = *c.half_edges.nth(i).unwrap();
            let e = *services.half_edges.get(&h);
            let v = *services.vertices.get(&e.start_vertex);
            let vh = services.vertices.insert(Vertex::new(translate_point(v.position, path)));
            let eh = services.half_edges.insert(HalfEdge::new(vh));
            edges.push(eh);
            i += 1;
        }
        proof {
            assert(distinct_ids(edges@));
        }
        let cy = Cycle::new(ObjectSet::new(edges));
        services.cycles.insert(cy)
    }

/// Build one side face per edge of a cycle: each face spans the edge's
/// start position, its circular successor's start position, and the two
/// translated copies, as a fresh four-edge loop on its own plane.
pub fn sweep_cycle_sides(c: &Cycle, path: Vector3, services: &mut Services) -> (fs: Vec<Handle<Face>>)
    requires
        cycle_valid(*c, *old(services)),
        cycle_fits(*c, *old(services), path),
    ensures
        services_extend(*old(services), *final(services)),
        fs@.len() == c.half_edges@.len(),
        forall|i: int| 0 <= i < fs@.len() ==> (#[trigger] fs@[i]).spec_id()
            >= old(services).faces@.len(),
        forall|i: int, j: int| 0 <= i < j < fs@.len() ==> (#[trigger] fs@[i]).spec_id() < (
        #[trigger] fs@[j]).spec_id(),
        forall|i: int| 0 <= i < fs@.len() ==> (#[trigger] fs@[i]).spec_id()
            < final(services).faces@.len() && face_valid(
            final(services).faces@[fs@[i].spec_id() as int],
            *final(services),
        ),
        forall|i: int| 0 <= i < fs@.len() ==> side_face_ok(
            final(services).faces@[(#[trigger] fs@[i]).spec_id() as int],
            edge_start_position(c.half_edges@[i], *old(services)),
            edge_start_position(
                c.half_edges@[(i + 1) % (c.half_edges@.len() as int)],
                *old(services),
            ),
            path,
            *final(services),
        ),
{
    let ghost s0 = *services;
    let prs = c.half_edges.pairs();
    let mut fs: Vec<Handle<Face>> = Vec::new();
    let n = c.half_edges.len();
    let mut i: usize = 0;
    while i < n
        invariant
            n == c.half_edges@.len(),
            i <= n,
            cycle_valid(*c, s0),
            cycle_fits(*c, s0, path),
            prs@.len() == n,
            forall|k: int| 0 <= k < n ==> (#[trigger] prs@[k]).0 == c.half_edges@[k] && prs@[k].1
                == c.half_edges@[(k + 1) % (n as int)],
            services_extend(s0, *services),
            fs@.len() == i as int,
            forall|j: int| 0 <= j < i ==> (#[trigger] fs@[j]).spec_id() >= s0.faces@.len(),
            forall|j1: int, j2: int| 0 <= j1 < j2 < i ==> (#[trigger] fs@[j1]).spec_id() < (
            #[trigger] fs@[j2]).spec_id(),
            forall|j: int| 0 <= j < i ==> (#[trigger] fs@[j]).spec_id() < services.faces@.len()
                && face_valid(services.faces@[fs@[j].spec_id() as int], *services),
            forall|j: int| 0 <= j < i ==> side_face_ok(
                services.faces@[(#[trigger] fs@[j]).spec_id() as int],
                edge_start_position(c.half_edges@[j], s0),
                edge_start_position(c.half_edges@[(j + 1) % (n as int)], s0),
                path,
                *services,
            ),
        decreases n - i,
    {
        proof {
            vstd::arithmetic::div_mod::lemma_mod_bound(i + 1 as int, n as int);
        }
        let ghost s_pre = *services;
        let pair = prs[i];
        let e0 = *services.half_edges.get(&pair.0);
        let e1 = *services.half_edges.get(&pair.1);
        let p0 = services.vertices.get(&e0.start_vertex).position;
        let p1 = services.vertices.get(&e1.start_vertex).position;
        let q0 = translate_point(p0, path);
        let q1 = translate_point(p1, path);
        let va = services.vertices.insert(Vertex::new(p0));
        let vb = services.vertices.insert(Vertex::new(p1));
        let vc = services.vertices.insert(Vertex::new(q1));
        let vd = services.vertices.insert(Vertex::new(q0));
        let ea = services.half_edges.insert(HalfEdge::new(va));
        let eb = services.half_edges.insert(HalfEdge::new(vb));
        let ec = services.half_edges.insert(HalfEdge::new(vc));
        let ed = services.half_edges.insert(HalfEdge::new(vd));
        let mut loop_edges: Vec<Handle<HalfEdge>> = Vec::new();
        loop_edges.push(ea);
        loop_edges.push(eb);
        loop_edges.push(ec);
        loop_edges.push(ed);
        proof {
            assert(distinct_ids(loop_edges@));
        }
        let cyh = services.cycles.insert(Cycle::new(ObjectSet::new(loop_edges)));
        let no_interiors: Vec<Handle<Cycle>> = Vec::new();
        proof {
            assert(distinct_ids(no_interiors@));
        }
        let rgh = services.regions.insert(
            Region::new(cyh, ObjectSet::new(no_interiors), None),
        );
        let suh = services.surfaces.insert(Surface::new(p0, path, Vector3 { x: 0, y: 0, z: 0 }));
        let fh = services.faces.insert(Face::new(suh, rgh));
        fs.push(fh);
        proof {
            assert(face_valid(services.faces@[fh.spec_id() as int], *services));
            let ghost gp0 = edge_start_position(c.half_edges@[i as int], s0);
            let ghost gp1 = edge_start_position(
                c.half_edges@[(i + 1) % (n as int)],
                s0,
            );
            lemma_edge_start_position_stable(c.half_edges@[i as int], s0, s_pre);
            lemma_edge_start_position_stable(c.half_edges@[(i + 1) % (n as int)], s0, s_pre);
            assert(p0 == gp0 && p1 == gp1);
            assert(side_face_ok(services.faces@[fh.spec_id() as int], gp0, gp1, path, *services));
            assert forall|j: int| 0 <= j < i + 1 implies (#[trigger] fs@[j]).spec_id()
                < services.faces@.len() && face_valid(
                services.faces@[fs@[j].spec_id() as int],
                *services,
            ) by {
                if j < i {
                    assert(services.faces@[fs@[j].spec_id() as int] == s_pre.faces@[fs@[j].spec_id() as int]);
                    crate::services::lemma_face_valid_extend(
                        s_pre.faces@[fs@[j].spec_id() as int],
                        s_pre,
                        *services,
                    );
                }
            }
            assert forall|j: int| 0 <= j < i + 1 implies side_face_ok(
                services.faces@[(#[trigger] fs@[j]).spec_id() as int],
                edge_start_position(c.half_edges@[j], s0),
                edge_start_position(c.half_edges@[(j + 1) % (n as int)], s0),
                path,
                *services,
            ) by {
                if j < i {
                    lemma_side_face_ok_extend(
                        s_pre.faces@[fs@[j].spec_id() as int],
                        edge_start_position(c.half_edges@[j], s0),
                        edge_start_position(c.half_edges@[(j + 1) % (n as int)], s0),
                        path,
                        s_pre,
                        *services,
                    );
                }
            }
        }
        i += 1;
    }
    fs
}

/// Sweep one region along a path into a shell: a bottom cap sharing the
/// region by handle, a top cap over a translated copy of the region, and
/// one side face per boundary edge, so the shell has `2 + edges` faces.
pub fn sweep_region(rh: &Handle<Region>, path: Vector3, services: &mut Services) -> (sh: Handle<
    Shell,
>)
    requires
        rh.spec_id() < old(services).regions@.len(),
        region_valid(old(services).regions@[rh.spec_id() as int], *old(services)),
        region_fits(old(services).regions@[rh.spec_id() as int], *old(services), path),
    ensures
        services_extend(*old(services), *final(services)),
        old(services).shells@.len() <= sh.spec_id() < final(services).shells@.len(),
        shell_valid(final(services).shells@[sh.spec_id() as int], *final(services)),
        ({
            let r0 = old(services).regions@[rh.spec_id() as int];
            let shell = final(services).shells@[sh.spec_id() as int];
            let top = final(services).faces@[shell.faces@[1].spec_id() as int];
            &&& shell.faces@.len() == 2 + region_edge_count(r0, *old(services))
            &&& shell.faces@.len() >= 2
            &&& final(services).faces@[shell.faces@[0].spec_id() as int].region == *rh
            &&& top.region.spec_id() < final(services).regions@.len()
            &&& region_translated(
                r0,
                final(services).regions@[top.region.spec_id() as int],
                path,
                *old(services),
                *final(services),
            )
        }),
{
    let ghost s0 = *services;
    let ghost r0 = old(services).regions@[rh.spec_id() as int];
    let region = services.regions.get(rh).clone();
    let mut faces: Vec<Handle<Face>> = Vec::new();

    // Bottom cap: the region itself, shared by handle, on the base plane.
    let bottom_surface = services.surfaces.insert(
        Surface::new(
            Point3 { x: 0, y: 0, z: 0 },
            Vector3 { x: 1, y: 0, z: 0 },
            Vector3 { x: 0, y: 1, z: 0 },
        ),
    );
    let bottom_face = services.faces.insert(Face::new(bottom_surface, *rh));
    faces.push(bottom_face);

    // Top cap: a translated copy of the region, on the translated plane.
    let ext_cycle = services.cycles.get(&region.exterior).clone();
    proof {
        lemma_cycle_valid_extend(s0.cycles@[r0.exterior.spec_id() as int], s0, *services);
        lemma_cycle_fits_stable(s0.cycles@[r0.exterior.spec_id() as int], path, s0, *services);
    }
    let ghost s_a = *services;
    let top_ext = sweep_cycle_translated(&ext_cycle, path, services);
    proof {
        lemma_cycle_translated_shrink(
            s0.cycles@[r0.exterior.spec_id() as int],
            services.cycles@[top_ext.spec_id() as int],
            path,
            s0,
            s_a,
            *services,
        );
    }

    let mut top_interiors: Vec<Handle<Cycle>> = Vec::new();
    let n_int = region.interiors.len();
    let mut i: usize = 0;
    while i < n_int
        invariant
            n_int == region.interiors@.len(),
            i <= n_int,
            region.exterior == r0.exterior,
            region.interiors@ == r0.interiors@,
            region.color == r0.color,
            rh.spec_id() < s0.regions@.len(),
            r0 == s0.regions@[rh.spec_id() as int],
            region_valid(r0, s0),
            region_fits(r0, s0, path),
            services_extend(s0, *services),
            top_ext.spec_id() < services.cycles@.len(),
            cycle_valid(services.cycles@[top_ext.spec_id() as int], *services),
            cycle_translated(
                s0.cycles@[r0.exterior.spec_id() as int],
                services.cycles@[top_ext.spec_id() as int],
                path,
                s0,
                *services,
            ),
            top_interiors@.len() == i as int,
            forall|j1: int, j2: int| 0 <= j1 < j2 < i ==> (#[trigger] top_interiors@[j1]).spec_id()
                < (#[trigger] top_interiors@[j2]).spec_id(),
            forall|j: int| 0 <= j < i ==> {
                let th = #[trigger] top_interiors@[j];
                &&& th.spec_id() < services.cycles@.len()
                &&& cycle_valid(services.cycles@[th.spec_id() as int], *services)
                &&& cycle_translated(
                    s0.cycles@[r0.interiors@[j].spec_id() as int],
                    services.cycles@[th.spec_id() as int],
                    path,
                    s0,
                    *services,
                )
            },
            faces@.len() == 1,
            faces@[0].spec_id() < services.faces@.len(),
            services.faces@[faces@[0].spec_id() as int].region == *rh,
            face_valid(services.faces@[faces@[0].spec_id() as int], *services),
        decreases n_int - i,
    {
        let ch: Handle<Cycle> = *region.interiors.nth(i).unwrap();
        let cyc = services.cycles.get(&ch).clone();
        proof {
            lemma_cycle_valid_extend(s0.cycles@[ch.spec_id() as int], s0, *services);
            lemma_cycle_fits_stable(s0.cycles@[ch.spec_id() as int], path, s0, *services);
        }
        let ghost s_pre = *services;
        let th = sweep_cycle_translated(&cyc, path, services);
        top_interiors.push(th);
        proof {
            lemma_cycle_translated_shrink(
                s0.cycles@[ch.spec_id() as int],
                services.cycles@[th.spec_id() as int],
                path,
                s0,
                s_pre,
                *services,
            );
            lemma_cycle_translated_extend(
                s0.cycles@[r0.exterior.spec_id() as int],
                s_pre.cycles@[top_ext.spec_id() as int],
                path,
                s0,
                s_pre,
                *services,
            );
            lemma_cycle_valid_extend(
                s_pre.cycles@[top_ext.spec_id() as int],
                s_pre,
                *services,
            );
            assert forall|j: int| 0 <= j < i + 1 implies {
                let thj = #[trigger] top_interiors@[j];
                &&& thj.spec_id() < services.cycles@.len()
                &&& cycle_valid(services.cycles@[thj.spec_id() as int], *services)
                &&& cycle_translated(
                    s0.cycles@[r0.interiors@[j].spec_id() as int],
                    services.cycles@[thj.spec_id() as int],
                    path,
                    s0,
                    *services,
                )
            } by {
                if j < i {
                    let thj = top_interiors@[j];
                    assert(services.cycles@[thj.spec_id() as int] == s_pre.cycles@[thj.spec_id() as int]);
                    lemma_cycle_valid_extend(
                        s_pre.cycles@[thj.spec_id() as int],
                        s_pre,
                        *services,
                    );
                    lemma_cycle_translated_extend(
                        s0.cycles@[r0.interiors@[j].spec_id() as int],
                        s_pre.cycles@[thj.spec_id() as int],
                        path,
                        s0,
                        s_pre,
                        *services,
                    );
                }
            }
            lemma_face_valid_extend(
                s_pre.faces@[faces@[0].spec_id() as int],
                s_pre,
                *services,
            );
        }
        i += 1;
    }

    proof {
        assert(distinct_ids(top_interiors@));
    }
    let top_region = Region::new(top_ext, ObjectSet::new(top_interiors), region.color);
    let top_rh = services.regions.insert(top_region);
    let top_surface = services.surfaces.insert(
        Surface::new(
            translate_point(Point3 { x: 0, y: 0, z: 0 }, path),
            Vector3 { x: 1, y: 0, z: 0 },
            Vector3 { x: 0, y: 1, z: 0 },
        ),
    );
    let top_face = services.faces.insert(Face::new(top_surface, top_rh));
    faces.push(top_face);

    proof {
        assert(region_translated(r0, top_region, path, s0, *services));
        assert(region_valid(top_region, *services));
    }

    // Side faces: one per edge of the exterior, then of each interior.
    let ghost s_b = *services;
    proof {
        lemma_cycle_valid_extend(s0.cycles@[r0.exterior.spec_id() as int], s0, *services);
        lemma_cycle_fits_stable(s0.cycles@[r0.exterior.spec_id() as int], path, s0, *services);
    }
    let mut ext_sides = sweep_cycle_sides(&ext_cycle, path, services);
    faces.append(&mut ext_sides);
    proof {
        lemma_region_translated_extend(r0, top_region, path, s0, s_b, *services);
        lemma_region_valid_extend(top_region, s_b, *services);
        lemma_face_valid_extend(s_b.faces@[faces@[0].spec_id() as int], s_b, *services);
        lemma_face_valid_extend(s_b.faces@[faces@[1].spec_id() as int], s_b, *services);
    }

    let ghost ext_len = s0.cycles@[r0.exterior.spec_id() as int].half_edges@.len() as int;
    let mut k: usize = 0;
    while k < n_int
        invariant
            n_int == region.interiors@.len(),
            k <= n_int,
            region.exterior == r0.exterior,
            region.interiors@ == r0.interiors@,
            region.color == r0.color,
            rh.spec_id() < s0.regions@.len(),
            r0 == s0.regions@[rh.spec_id() as int],
            region_valid(r0, s0),
            region_fits(r0, s0, path),
            services_extend(s0, *services),
            ext_len == s0.cycles@[r0.exterior.spec_id() as int].half_edges@.len() as int,
            faces@.len() == 2 + ext_len + cycles_edge_sum(r0.interiors@.take(k as int), s0),
            faces@.len() >= 2,
            forall|j1: int, j2: int| 0 <= j1 < j2 < faces@.len() ==> (
            #[trigger] faces@[j1]).spec_id() < (#[trigger] faces@[j2]).spec_id(),
            forall|j: int| 0 <= j < faces@.len() ==> (#[trigger] faces@[j]).spec_id()
                < services.faces@.len() && face_valid(
                services.faces@[faces@[j].spec_id() as int],
                *services,
            ),
            services.faces@[faces@[0].spec_id() as int].region == *rh,
            services.faces@[faces@[1].spec_id() as int].region == top_rh,
            top_rh.spec_id() < services.regions@.len(),
            services.regions@[top_rh.spec_id() as int] == top_region,
            region_translated(r0, top_region, path, s0, *services),
        decreases n_int - k,
    {
        let ch: Handle<Cycle> = *region.interiors.nth(k).unwrap();
        let cyc = services.cycles.get(&ch).clone();
        proof {
            lemma_cycle_valid_extend(s0.cycles@[ch.spec_id() as int], s0, *services);
            lemma_cycle_fits_stable(s0.cycles@[ch.spec_id() as int], path, s0, *services);
        }
        let ghost s_pre = *services;
        let ghost faces_pre = faces@;
        let mut sd = sweep_cycle_sides(&cyc, path, services);
        faces.append(&mut sd);
        proof {
            assert(faces@[0] == faces_pre[0]);
            assert(faces@[1] == faces_pre[1]);
            assert(services.faces@[faces_pre[0].spec_id() as int] == s_pre.faces@[faces_pre[0].spec_id() as int]);
            assert(services.faces@[faces_pre[1].spec_id() as int] == s_pre.faces@[faces_pre[1].spec_id() as int]);
            assert(r0.interiors@.take(k + 1 as int) =~= r0.interiors@.take(k as int).push(
                r0.interiors@[k as int],
            ));
            lemma_cycles_edge_sum_push(
                r0.interiors@.take(k as int),
                r0.interiors@[k as int],
                s0,
            );
            assert forall|j: int| 0 <= j < faces@.len() implies (#[trigger] faces@[j]).spec_id()
                < services.faces@.len() && face_valid(
                services.faces@[faces@[j].spec_id() as int],
                *services,
            ) by {
                if j < faces_pre.len() {
                    assert(faces@[j] == faces_pre[j]);
                    assert(services.faces@[faces_pre[j].spec_id() as int] == s_pre.faces@[faces_pre[j].spec_id() as int]);
                    lemma_face_valid_extend(
                        s_pre.faces@[faces_pre[j].spec_id() as int],
                        s_pre,
                        *services,
                    );
                }
            }
            lemma_region_translated_extend(r0, top_region, path, s0, s_pre, *services);
        }
        k += 1;
    }

    proof {
        assert(r0.interiors@.take(n_int as int) =~= r0.interiors@);
        assert(distinct_ids(faces@));
    }
    let ghost faces_view = faces@;
    let shell = Shell::new(ObjectSet::new(faces));
    let sh = services.shells.insert(shell);
    proof {
        assert(services.shells@[sh.spec_id() as int].faces@ == faces_view);
        assert(shell_valid(services.shells@[sh.spec_id() as int], *services));
    }
    sh
}

impl Sketch {
    /// Sweep the sketch along a path: one shell per region, gathered into
    /// a solid. The solid itself is returned bare; everything it references
    /// has been inserted into the stores.
    pub fn sweep(self, path: Vector3, services: &mut Services) -> (solid: Solid)
        requires
            sketch_valid(self, *old(services)),
            sketch_fits(self, *old(services), path),
        ensures
            services_extend(*old(services), *final(services)),
            solid.shells@.len() == self.regions@.len(),
            solid_valid(solid, *final(services)),
            forall|i: int| 0 <= i < self.regions@.len() ==> {
                let r0 = old(services).regions@[(#[trigger] self.regions@[i]).spec_id() as int];
                let shell = final(services).shells@[solid.shells@[i].spec_id() as int];
                let top = final(services).faces@[shell.faces@[1].spec_id() as int];
                &&& solid.shells@[i].spec_id() < final(services).shells@.len()
                &&& shell.faces@.len() == 2 + region_edge_count(r0, *old(services))
                &&& shell.faces@.len() >= 2
                &&& final(services).faces@[shell.faces@[0].spec_id() as int].region
                    == self.regions@[i]
                &&& top.region.spec_id() < final(services).regions@.len()
                &&& region_translated(
                    r0,
                    final(services).regions@[top.region.spec_id() as int],
                    path,
                    *old(services),
                    *final(services),
                )
            },
    {
        let ghost s0 = *services;
        proof {
            use_type_invariant(&self.regions);
        }
        let mut shells: Vec<Handle<Shell>> = Vec::new();
        let n = self.regions.len();
        let mut i: usize = 0;
        while i < n
            invariant
                n == self.regions@.len(),
                i <= n,
                sketch_valid(self, s0),
                sketch_fits(self, s0, path),
                services_extend(s0, *services),
                shells@.len() == i as int,
                forall|j1: int, j2: int| 0 <= j1 < j2 < i ==> (#[trigger] shells@[j1]).spec_id()
                    < (#[trigger] shells@[j2]).spec_id(),
                forall|j: int| 0 <= j < i ==> (#[trigger] shells@[j]).spec_id()
                    < services.shells@.len(),
                forall|j: int| 0 <= j < i ==> shell_valid(
                    services.shells@[(#[trigger] shells@[j]).spec_id() as int],
                    *services,
                ),
                forall|j: int| 0 <= j < i ==> {
                    let r0 = s0.regions@[(#[trigger] self.regions@[j]).spec_id() as int];
                    let shh = shells@[j];
                    let shell = services.shells@[shh.spec_id() as int];
                    let top = services.faces@[shell.faces@[1].spec_id() as int];
                    &&& shh.spec_id() < services.shells@.len()
                    &&& shell_valid(shell, *services)
                    &&& shell.faces@.len() == 2 + region_edge_count(r0, s0)
                    &&& shell.faces@.len() >= 2
                    &&& services.faces@[shell.faces@[0].spec_id() as int].region
                        == self.regions@[j]
                    &&& top.region.spec_id() < services.regions@.len()
                    &&& region_translated(
                        r0,
                        services.regions@[top.region.spec_id() as int],
                        path,
                        s0,
                        *services,
                    )
                },
            decreases n - i,
        {
            let rh: Handle<Region> = *self.regions.nth(i).unwrap();
            let ghost r0 = s0.regions@[rh.spec_id() as int];
            let ghost s_pre = *services;
            proof {
                lemma_region_valid_extend(r0, s0, s_pre);
                lemma_region_fits_stable(r0, path, s0, s_pre);
            }
            let shh = sweep_region(&rh, path, services);
            shells.push(shh);
            proof {
                assert forall|j: int| 0 <= j < i + 1 implies shell_valid(
                    services.shells@[(#[trigger] shells@[j]).spec_id() as int],
                    *services,
                ) by {
                    if j < i {
                        assert(services.shells@[shells@[j].spec_id() as int] == s_pre.shells@[shells@[j].spec_id() as int]);
                        crate::services::lemma_shell_valid_extend(
                            s_pre.shells@[shells@[j].spec_id() as int],
                            s_pre,
                            *services,
                        );
                    }
                }
                lemma_region_edge_count_stable(r0, s0, s_pre);
                lemma_region_translated_shrink(
                    r0,
                    services.regions@[services.faces@[services.shells@[shh.spec_id() as int].faces@[1].spec_id() as int].region.spec_id() as int],
                    path,
                    s0,
                    s_pre,
                    *services,
                );
                assert forall|j: int| 0 <= j < i + 1 implies {
                    let rj = s0.regions@[(#[trigger] self.regions@[j]).spec_id() as int];
                    let shh2 = shells@[j];
                    let shell = services.shells@[shh2.spec_id() as int];
                    let top = services.faces@[shell.faces@[1].spec_id() as int];
                    &&& shh2.spec_id() < services.shells@.len()
                    &&& shell_valid(shell, *services)
                    &&& shell.faces@.len() == 2 + region_edge_count(rj, s0)
                    &&& shell.faces@.len() >= 2
                    &&& services.faces@[shell.faces@[0].spec_id() as int].region
                        == self.regions@[j]
                    &&& top.region.spec_id() < services.regions@.len()
                    &&& region_translated(
                        rj,
                        services.regions@[top.region.spec_id() as int],
                        path,
                        s0,
                        *services,
                    )
                } by {
                    if j < i {
                        let rj = s0.regions@[self.regions@[j].spec_id() as int];
                        let shh2 = shells@[j];
                        assert(services.shells@[shh2.spec_id() as int] == s_pre.shells@[shh2.spec_id() as int]);
                        let shell = s_pre.shells@[shh2.spec_id() as int];
                        crate::services::lemma_shell_valid_extend(shell, s_pre, *services);
                        assert(services.faces@[shell.faces@[0].spec_id() as int] == s_pre.faces@[shell.faces@[0].spec_id() as int]);
                        assert(services.faces@[shell.faces@[1].spec_id() as int] == s_pre.faces@[shell.faces@[1].spec_id() as int]);
                        let top = s_pre.faces@[shell.faces@[1].spec_id() as int];
                        assert(services.regions@[top.region.spec_id() as int] == s_pre.regions@[top.region.spec_id() as int]);
                        lemma_region_translated_extend(
                            rj,
                            s_pre.regions@[top.region.spec_id() as int],
                            path,
                            s0,
                            s_pre,
                            *services,
                        );
                    }
                }
            }
            i += 1;
        }
        proof {
            assert(distinct_ids(shells@));
            assert forall|j: int| 0 <= j < shells@.len() implies {
                &&& (#[trigger] shells@[j]).spec_id() < services.shells@.len()
                &&& shell_valid(services.shells@[shells@[j].spec_id() as int], *services)
            } by {
            }
        }
        Solid::new(ObjectSet::new(shells))
    }
}

} // verus!
