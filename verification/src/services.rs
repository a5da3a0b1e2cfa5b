//! The aggregate of canonical stores, one per object kind, together with
//! the well-formedness of objects relative to those stores.
//!
//! An object is valid when every handle it holds, directly or through its
//! children, refers into the store of the corresponding kind. Stores only
//! grow, so validity, and every fact about stored objects, is preserved as
//! new objects are inserted.

use vstd::prelude::*;
use crate::objects::{Cycle, Face, HalfEdge, Region, Shell, Sketch, Solid, Surface, Vertex};
use crate::storage::Store;

verus! {

/// One canonical store per object kind.
pub struct Services {
    pub vertices: Store<Vertex>,
    pub half_edges: Store<HalfEdge>,
    pub cycles: Store<Cycle>,
    pub regions: Store<Region>,
    pub surfaces: Store<Surface>,
    pub faces: Store<Face>,
    pub shells: Store<Shell>,
    pub solids: Store<Solid>,
    pub sketches: Store<Sketch>,
}

impl Services {
    /// Create an aggregate of empty stores.
    pub fn new() -> (r: Self)
        ensures
            r.vertices@ == Seq::<Vertex>::empty(),
            r.half_edges@ == Seq::<HalfEdge>::empty(),
            r.cycles@ == Seq::<Cycle>::empty(),
            r.regions@ == Seq::<Region>::empty(),
            r.surfaces@ == Seq::<Surface>::empty(),
            r.faces@ == Seq::<Face>::empty(),
            r.shells@ == Seq::<Shell>::empty(),
            r.solids@ == Seq::<Solid>::empty(),
            r.sketches@ == Seq::<Sketch>::empty(),
    {
        Services {
            vertices: Store::new(),
            half_edges: Store::new(),
            cycles: Store::new(),
            regions: Store::new(),
            surfaces: Store::new(),
            faces: Store::new(),
            shells: Store::new(),
            solids: Store::new(),
            sketches: Store::new(),
        }
    }
}

/// Whether `b` keeps every entry of `a`, at its position, and only appends
/// new ones.
pub open spec fn store_extends<T>(a: Seq<T>, b: Seq<T>) -> bool {
    &&& a.len() <= b.len()
    &&& forall|i: int| 0 <= i < a.len() ==> b[i] == a[i]
}

/// Whether every store of `b` extends the corresponding store of `a`: old
/// entries are kept, at their positions, and only new ones are appended.
pub open spec fn services_extend(a: Services, b: Services) -> bool {
    &&& store_extends(a.vertices@, b.vertices@)
    &&& store_extends(a.half_edges@, b.half_edges@)
    &&& store_extends(a.cycles@, b.cycles@)
    &&& store_extends(a.regions@, b.regions@)
    &&& store_extends(a.surfaces@, b.surfaces@)
    &&& store_extends(a.faces@, b.faces@)
    &&& store_extends(a.shells@, b.shells@)
    &&& store_extends(a.solids@, b.solids@)
    &&& store_extends(a.sketches@, b.sketches@)
}


/// Whether a half-edge's handles refer into the stores.
pub open spec fn half_edge_valid(e: HalfEdge, s: Services) -> bool {
    e.start_vertex.spec_id() < s.vertices@.len()
}

/// Whether a cycle's handles, and the objects they refer to, refer into
/// the stores.
pub open spec fn cycle_valid(c: Cycle, s: Services) -> bool {
    forall|i: int| 0 <= i < c.half_edges@.len() ==> {
        &&& c.half_edges@[i].spec_id() < s.half_edges@.len()
        &&& half_edge_valid(s.half_edges@[c.half_edges@[i].spec_id() as int], s)
    }
}

/// Whether a region's handles, and the objects they refer to, refer into
/// the stores.
pub open spec fn region_valid(r: Region, s: Services) -> bool {
    &&& r.exterior.spec_id() < s.cycles@.len()
    &&& cycle_valid(s.cycles@[r.exterior.spec_id() as int], s)
    &&& forall|i: int| 0 <= i < r.interiors@.len() ==> {
        &&& r.interiors@[i].spec_id() < s.cycles@.len()
        &&& cycle_valid(s.cycles@[r.interiors@[i].spec_id() as int], s)
    }
}

/// Whether a face's handles, and the objects they refer to, refer into
/// the stores.
pub open spec fn face_valid(f: Face, s: Services) -> bool {
    &&& f.surface.spec_id() < s.surfaces@.len()
    &&& f.region.spec_id() < s.regions@.len()
    &&& region_valid(s.regions@[f.region.spec_id() as int], s)
}

/// Whether a shell's handles, and the objects they refer to, refer into
/// the stores.
pub open spec fn shell_valid(sh: Shell, s: Services) -> bool {
    forall|i: int| 0 <= i < sh.faces@.len() ==> {
        &&& sh.faces@[i].spec_id() < s.faces@.len()
        &&& face_valid(s.faces@[sh.faces@[i].spec_id() as int], s)
    }
}

/// Whether a solid's handles, and the objects they refer to, refer into
/// the stores.
pub open spec fn solid_valid(so: Solid, s: Services) -> bool {
    forall|i: int| 0 <= i < so.shells@.len() ==> {
        &&& so.shells@[i].spec_id() < s.shells@.len()
        &&& shell_valid(s.shells@[so.shells@[i].spec_id() as int], s)
    }
}

/// Whether a sketch's handles, and the objects they refer to, refer into
/// the stores.
pub open spec fn sketch_valid(sk: Sketch, s: Services) -> bool {
    forall|i: int| 0 <= i < sk.regions@.len() ==> {
        &&& sk.regions@[i].spec_id() < s.regions@.len()
        &&& region_valid(s.regions@[sk.regions@[i].spec_id() as int], s)
    }
}


/// Validity of a cycle is preserved as stores grow.
pub proof fn lemma_cycle_valid_extend(c: Cycle, a: Services, b: Services)
    requires
        cycle_valid(c, a),
        services_extend(a, b),
    ensures
        cycle_valid(c, b),
{
    assert forall|i: int| 0 <= i < c.half_edges@.len() implies {
        &&& c.half_edges@[i].spec_id() < b.half_edges@.len()
        &&& half_edge_valid(b.half_edges@[c.half_edges@[i].spec_id() as int], b)
    } by {
        let id = c.half_edges@[i].spec_id() as int;
        assert(b.half_edges@[id] == a.half_edges@[id]);
    }
}

/// Validity of a region is preserved as stores grow.
pub proof fn lemma_region_valid_extend(r: Region, a: Services, b: Services)
    requires
        region_valid(r, a),
        services_extend(a, b),
    ensures
        region_valid(r, b),
{
    let ext = a.cycles@[r.exterior.spec_id() as int];
    assert(b.cycles@[r.exterior.spec_id() as int] == ext);
    lemma_cycle_valid_extend(ext, a, b);
    assert forall|i: int| 0 <= i < r.interiors@.len() implies {
        &&& r.interiors@[i].spec_id() < b.cycles@.len()
        &&& cycle_valid(b.cycles@[r.interiors@[i].spec_id() as int], b)
    } by {
        let id = r.interiors@[i].spec_id() as int;
        assert(b.cycles@[id] == a.cycles@[id]);
        lemma_cycle_valid_extend(a.cycles@[id], a, b);
    }
}

/// Validity of a face is preserved as stores grow.
pub proof fn lemma_face_valid_extend(f: Face, a: Services, b: Services)
    requires
        face_valid(f, a),
        services_extend(a, b),
    ensures
        face_valid(f, b),
{
    let id = f.region.spec_id() as int;
    assert(b.regions@[id] == a.regions@[id]);
    lemma_region_valid_extend(a.regions@[id], a, b);
}

/// Validity of a shell is preserved as stores grow.
pub proof fn lemma_shell_valid_extend(sh: Shell, a: Services, b: Services)
    requires
        shell_valid(sh, a),
        services_extend(a, b),
    ensures
        shell_valid(sh, b),
{
    assert forall|i: int| 0 <= i < sh.faces@.len() implies {
        &&& sh.faces@[i].spec_id() < b.faces@.len()
        &&& face_valid(b.faces@[sh.faces@[i].spec_id() as int], b)
    } by {
        let id = sh.faces@[i].spec_id() as int;
        assert(b.faces@[id] == a.faces@[id]);
        lemma_face_valid_extend(a.faces@[id], a, b);
    }
}



} // verus!
