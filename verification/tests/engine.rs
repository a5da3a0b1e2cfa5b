use brep_core::approx::{ApproxCache, InvalidTolerance, Tolerance};
use brep_core::geometry::{Point3, Vector3};
use brep_core::object_set::ObjectSet;
use brep_core::objects::{Cycle, Face, HalfEdge, Region, Shell, Sketch, Surface, Vertex};
use brep_core::replace::{ReplaceHalfEdge, ReplaceOutput};
use brep_core::services::Services;
use brep_core::storage::Handle;

fn point(x: i64, y: i64, z: i64) -> Point3 {
    Point3 { x, y, z }
}

/// Insert a square cycle of four shared vertices; returns the cycle handle
/// and its four half-edge handles.
fn square_cycle(services: &mut Services) -> (Handle<brep_core::objects::Cycle>, Vec<Handle<HalfEdge>>) {
    let corners = [point(0, 0, 0), point(1, 0, 0), point(1, 1, 0), point(0, 1, 0)];
    let mut edges = Vec::new();
    for c in corners {
        let v = services.vertices.insert(Vertex::new(c));
        edges.push(services.half_edges.insert(HalfEdge::new(v)));
    }
    let cycle = services.cycles.insert(Cycle::new(ObjectSet::new(edges.clone())));
    (cycle, edges)
}

fn square_face(services: &mut Services) -> (Handle<Face>, Vec<Handle<HalfEdge>>) {
    let (cycle, edges) = square_cycle(services);
    let region = services.regions.insert(Region::new(cycle, ObjectSet::new(Vec::new()), None));
    let surface = services.surfaces.insert(Surface::new(
        point(0, 0, 0),
        Vector3 { x: 1, y: 0, z: 0 },
        Vector3 { x: 0, y: 1, z: 0 },
    ));
    let face = services.faces.insert(Face::new(surface, region));
    (face, edges)
}

#[test]
fn tolerance_rejects_zero_and_keeps_value() {
    assert_eq!(Tolerance::from_value(0), Err(InvalidTolerance));
    let t = Tolerance::from_value(5).unwrap();
    assert_eq!(t.value(), 5);
}

#[test]
fn cycle_split_edge_into_two() {
    let mut services = Services::new();
    let (cycle_h, edges) = square_cycle(&mut services);
    let va = services.vertices.insert(Vertex::new(point(2, 0, 0)));
    let ea = services.half_edges.insert(HalfEdge::new(va));
    let vb = services.vertices.insert(Vertex::new(point(2, 1, 0)));
    let eb = services.half_edges.insert(HalfEdge::new(vb));

    let cycle = services.cycles.get(&cycle_h).clone();
    let out = cycle.replace_half_edge(&edges[1], &[ea, eb], &mut services);
    assert!(out.was_updated());
    match out {
        ReplaceOutput::Updated(new_cycle) => {
            let items = new_cycle.half_edges.iter();
            assert_eq!(items.len(), 5);
            assert_eq!(items[0], edges[0]);
            assert_eq!(items[1], ea);
            assert_eq!(items[2], eb);
            assert_eq!(items[3], edges[2]);
            assert_eq!(items[4], edges[3]);
        },
        ReplaceOutput::Original(_) => panic!("the edge is present, so the cycle must change"),
    }
}

#[test]
fn replacing_absent_edge_in_shell_returns_original() {
    let mut services = Services::new();
    let (face, _edges) = square_face(&mut services);
    let shell_faces = vec![face];
    let shell = Shell::new(ObjectSet::new(shell_faces));

    let v = services.vertices.insert(Vertex::new(point(9, 9, 9)));
    let absent = services.half_edges.insert(HalfEdge::new(v));
    let out = shell.replace_half_edge(&absent, &[], &mut services);
    assert!(!out.was_updated());
    match out {
        ReplaceOutput::Original(same) => {
            // Identity-equal to the input: the same face handles, in order.
            let items = same.faces.iter();
            assert_eq!(items.len(), 1);
            assert_eq!(items[0], face);
        },
        ReplaceOutput::Updated(_) => panic!("nothing was present, so nothing may change"),
    }
}

#[test]
fn replacing_edge_in_one_face_keeps_the_other_faces() {
    let mut services = Services::new();
    let (face_a, edges_a) = square_face(&mut services);
    let (face_b, _edges_b) = square_face(&mut services);
    let shell = Shell::new(ObjectSet::new(vec![face_a, face_b]));

    let v = services.vertices.insert(Vertex::new(point(5, 5, 5)));
    let replacement = services.half_edges.insert(HalfEdge::new(v));
    let out = shell.replace_half_edge(&edges_a[0], &[replacement], &mut services);
    assert!(out.was_updated());
    match out {
        ReplaceOutput::Updated(new_shell) => {
            let items = new_shell.faces.iter();
            assert_eq!(items.len(), 2);
            // The untouched face keeps its identity; the touched one is new.
            assert!(items[0] != face_a);
            assert_eq!(items[1], face_b);
            // The new face's region holds the replacement edge.
            let new_face = services.faces.get(&items[0]);
            let new_region = services.regions.get(&new_face.region);
            let new_cycle = services.cycles.get(&new_region.exterior).clone();
            assert!(new_cycle.half_edges.contains(&replacement));
            assert!(!new_cycle.half_edges.contains(&edges_a[0]));
            assert_eq!(new_cycle.half_edges.len(), 4);
        },
        ReplaceOutput::Original(_) => panic!("the edge is present, so the shell must change"),
    }
}

#[test]
fn sweep_square_sketch_gives_one_shell_of_six_faces() {
    let mut services = Services::new();
    let (cycle, _edges) = square_cycle(&mut services);
    let region = services.regions.insert(Region::new(cycle, ObjectSet::new(Vec::new()), None));
    let sketch = Sketch::new(ObjectSet::new(vec![region]));

    let solid = sketch.sweep(Vector3 { x: 0, y: 0, z: 1 }, &mut services);
    assert_eq!(solid.shells.len(), 1);
    let shell = services.shells.get(solid.shells.only());
    // Cap faces (regions x 2) plus side faces (edges x 1).
    assert_eq!(shell.faces.len(), 2 + 4);
    // The bottom cap shares the original region by handle.
    let bottom = services.faces.get(shell.faces.nth(0).unwrap());
    assert_eq!(bottom.region, region);
    // The top cap's region is a translated copy of the original.
    let top = services.faces.get(shell.faces.nth(1).unwrap());
    let top_region = services.regions.get(&top.region).clone();
    let top_cycle = services.cycles.get(&top_region.exterior).clone();
    assert_eq!(top_cycle.half_edges.len(), 4);
    let first_top_edge = services.half_edges.get(top_cycle.half_edges.nth(0).unwrap()).clone();
    let first_top_vertex = services.vertices.get(&first_top_edge.start_vertex);
    assert_eq!(first_top_vertex.position, point(0, 0, 1));
}

#[test]
fn end_to_end_square_loop_pairs_split_and_sweep() {
    let mut services = Services::new();
    let (cycle_h, edges) = square_cycle(&mut services);

    // The loop's circularly adjacent edge pairs.
    let cycle = services.cycles.get(&cycle_h).clone();
    let prs = cycle.half_edges.pairs();
    assert_eq!(prs.len(), 4);
    for i in 0..4 {
        assert_eq!(prs[i].0, edges[i]);
        assert_eq!(prs[i].1, edges[(i + 1) % 4]);
    }

    // Split one edge into two.
    let va = services.vertices.insert(Vertex::new(point(1, 0, 0)));
    let ea = services.half_edges.insert(HalfEdge::new(va));
    let vb = services.vertices.insert(Vertex::new(point(1, 1, 0)));
    let eb = services.half_edges.insert(HalfEdge::new(vb));
    let out = cycle.replace_half_edge(&edges[2], &[ea, eb], &mut services);
    let new_cycle = match out {
        ReplaceOutput::Updated(c) => c,
        ReplaceOutput::Original(_) => panic!("the edge is present, so the cycle must change"),
    };
    let items = new_cycle.half_edges.iter();
    assert_eq!(items.len(), 5);
    assert_eq!(items[0], edges[0]);
    assert_eq!(items[1], edges[1]);
    assert_eq!(items[2], ea);
    assert_eq!(items[3], eb);
    assert_eq!(items[4], edges[3]);

    // Sweep a single-region sketch of the split loop.
    let new_cycle_h = services.cycles.insert(new_cycle);
    let region = services.regions.insert(
        Region::new(new_cycle_h, ObjectSet::new(Vec::new()), None),
    );
    let sketch = Sketch::new(ObjectSet::new(vec![region]));
    let solid = sketch.sweep(Vector3 { x: 0, y: 0, z: 1 }, &mut services);
    assert_eq!(solid.shells.len(), 1);
    let shell = services.shells.get(solid.shells.only());
    assert_eq!(shell.faces.len(), 2 + 5);
}

#[test]
fn approx_caches_by_identity_and_tolerance() {
    let mut services = Services::new();
    let (cycle, _edges) = square_cycle(&mut services);
    let region = services.regions.insert(Region::new(cycle, ObjectSet::new(Vec::new()), None));
    let sketch = Sketch::new(ObjectSet::new(vec![region]));
    let solid = sketch.sweep(Vector3 { x: 0, y: 0, z: 1 }, &mut services);

    let tolerance = Tolerance::from_value(1).unwrap();
    let mut cache = ApproxCache::new();
    assert_eq!(cache.computations(), 0);

    let first = solid.approx_with_cache(tolerance, &mut cache, &services);
    let after_first = cache.computations();
    assert!(after_first > 0);

    let second = solid.approx_with_cache(tolerance, &mut cache, &services);
    // Nothing is recomputed the second time.
    assert_eq!(cache.computations(), after_first);
    // The results are element-wise equal.
    assert_eq!(first.len(), second.len());
    for i in 0..first.len() {
        assert_eq!(first[i].face, second[i].face);
        assert_eq!(first[i].points, second[i].points);
    }

    // A different tolerance is a different cache key.
    let other = Tolerance::from_value(2).unwrap();
    let third = solid.approx_with_cache(other, &mut cache, &services);
    assert!(cache.computations() > after_first);
    assert_eq!(first.len(), third.len());
}

#[test]
fn approx_of_square_prism_lists_every_face_once() {
    let mut services = Services::new();
    let (cycle, _edges) = square_cycle(&mut services);
    let region = services.regions.insert(Region::new(cycle, ObjectSet::new(Vec::new()), None));
    let sketch = Sketch::new(ObjectSet::new(vec![region]));
    let solid = sketch.sweep(Vector3 { x: 0, y: 0, z: 1 }, &mut services);

    let tolerance = Tolerance::from_value(1).unwrap();
    let mut cache = ApproxCache::new();
    let approx = solid.approx_with_cache(tolerance, &mut cache, &services);

    let shell = services.shells.get(solid.shells.only());
    assert_eq!(approx.len(), shell.faces.len());
    // The bottom cap's approximation walks the square's corners.
    assert_eq!(approx[0].points.len(), 4);
    assert_eq!(approx[0].points[0], point(0, 0, 0));
    assert_eq!(approx[0].points[1], point(1, 0, 0));
    assert_eq!(approx[0].points[2], point(1, 1, 0));
    assert_eq!(approx[0].points[3], point(0, 1, 0));
    // The top cap's approximation is translated by the sweep path.
    assert_eq!(approx[1].points.len(), 4);
    assert_eq!(approx[1].points[0], point(0, 0, 1));
    // Each side face's approximation walks its four corners.
    assert_eq!(approx[2].points.len(), 4);
}
