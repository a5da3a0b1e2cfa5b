//! Structural replacement of a half-edge through the object graph.
//!
//! Replacing a half-edge propagates through every enclosing object: each
//! level rebuilds itself only where a child actually changed, and shares
//! every untouched child by handle. A rebuilt child is inserted into the
//! stores; the top-level result is returned bare, not yet inserted, so a
//! caller composing several replacements can defer store churn.

use vstd::prelude::*;
use crate::object_set::{contains_id, distinct_ids, spliced, ObjectSet};
use crate::objects::{
    cycle_equiv, region_equiv, shell_equiv, sketch_equiv, solid_equiv, Cycle, Face, HalfEdge,
    Region, Shell, Sketch, Solid,
};
use crate::services::{
    face_valid, lemma_face_valid_extend, lemma_region_valid_extend, lemma_shell_valid_extend,
    region_valid, services_extend, shell_valid, sketch_valid, solid_valid, store_extends,
    Services,
};
use crate::storage::Handle;

verus! {

/// The outcome of a replacement: either the receiver did not contain the
/// target, directly or transitively, and is handed back as it was; or a new
/// object was built, with the substitution applied at every point found,
/// and is handed back bare, not yet inserted into any store.
pub enum ReplaceOutput<T, Bare> {
    /// Nothing to replace: the original object, unchanged.
    Original(T),
    /// The rebuilt object, not yet inserted into the store.
    Updated(Bare),
}

impl<T, Bare> ReplaceOutput<T, Bare> {
    /// Whether the replacement produced a new object.
    pub open spec fn spec_was_updated(&self) -> bool {
        matches!(self, ReplaceOutput::Updated(_))
    }

    /// Indicate whether the replacement produced a new object.
    pub fn was_updated(&self) -> (r: bool)
        ensures
            r == self.spec_was_updated(),
    {
        matches!(self, ReplaceOutput::Updated(_))
    }
}

/// Whether the cycle holds a half-edge of identity `id`.
pub open spec fn cycle_contains(c: Cycle, id: u64) -> bool {
    contains_id(c.half_edges@, id)
}

/// Whether the region, read at `s`, holds a half-edge of identity `id` in
/// its exterior or in one of its interiors.
pub open spec fn region_contains(r: Region, s: Services, id: u64) -> bool {
    ||| cycle_contains(s.cycles@[r.exterior.spec_id() as int], id)
    ||| exists|i: int| 0 <= i < r.interiors@.len() && cycle_contains(
        s.cycles@[r.interiors@[i].spec_id() as int],
        id,
    )
}

/// Whether the face, read at `s`, holds a half-edge of identity `id`.
pub open spec fn face_contains(f: Face, s: Services, id: u64) -> bool {
    region_contains(s.regions@[f.region.spec_id() as int], s, id)
}

/// Whether the shell, read at `s`, holds a half-edge of identity `id` in
/// one of its faces.
pub open spec fn shell_contains(sh: Shell, s: Services, id: u64) -> bool {
    exists|i: int| 0 <= i < sh.faces@.len() && face_contains(
        s.faces@[sh.faces@[i].spec_id() as int],
        s,
        id,
    )
}

/// Whether the solid, read at `s`, holds a half-edge of identity `id` in
/// one of its shells.
pub open spec fn solid_contains(so: Solid, s: Services, id: u64) -> bool {
    exists|i: int| 0 <= i < so.shells@.len() && shell_contains(
        s.shells@[so.shells@[i].spec_id() as int],
        s,
        id,
    )
}

/// Whether the sketch, read at `s`, holds a half-edge of identity `id` in
/// one of its regions.
pub open spec fn sketch_contains(sk: Sketch, s: Services, id: u64) -> bool {
    exists|i: int| 0 <= i < sk.regions@.len() && region_contains(
        s.regions@[sk.regions@[i].spec_id() as int],
        s,
        id,
    )
}

/// Whether splicing `repl` for `id` inside the cycle, if `id` is present,
/// leaves all identities distinct. Violating this is a caller error.
pub open spec fn cycle_splice_ok(c: Cycle, id: u64, repl: Seq<Handle<HalfEdge>>) -> bool {
    cycle_contains(c, id) ==> distinct_ids(spliced(c.half_edges@, id, repl))
}

/// `cycle_splice_ok`, for the exterior and every interior of a region.
pub open spec fn region_splice_ok(r: Region, s: Services, id: u64, repl: Seq<
    Handle<HalfEdge>,
>) -> bool {
    &&& cycle_splice_ok(s.cycles@[r.exterior.spec_id() as int], id, repl)
    &&& forall|i: int| 0 <= i < r.interiors@.len() ==> cycle_splice_ok(
        s.cycles@[r.interiors@[i].spec_id() as int],
        id,
        repl,
    )
}

/// `cycle_splice_ok`, for every cycle of a face's region.
pub open spec fn face_splice_ok(f: Face, s: Services, id: u64, repl: Seq<Handle<HalfEdge>>) -> bool {
    region_splice_ok(s.regions@[f.region.spec_id() as int], s, id, repl)
}

/// `cycle_splice_ok`, for every cycle reachable from a shell.
pub open spec fn shell_splice_ok(sh: Shell, s: Services, id: u64, repl: Seq<
    Handle<HalfEdge>,
>) -> bool {
    forall|i: int| 0 <= i < sh.faces@.len() ==> face_splice_ok(
        s.faces@[sh.faces@[i].spec_id() as int],
        s,
        id,
        repl,
    )
}

/// `cycle_splice_ok`, for every cycle reachable from a solid.
pub open spec fn solid_splice_ok(so: Solid, s: Services, id: u64, repl: Seq<
    Handle<HalfEdge>,
>) -> bool {
    forall|i: int| 0 <= i < so.shells@.len() ==> shell_splice_ok(
        s.shells@[so.shells@[i].spec_id() as int],
        s,
        id,
        repl,
    )
}

/// `cycle_splice_ok`, for every cycle reachable from a sketch.
pub open spec fn sketch_splice_ok(sk: Sketch, s: Services, id: u64, repl: Seq<
    Handle<HalfEdge>,
>) -> bool {
    forall|i: int| 0 <= i < sk.regions@.len() ==> region_splice_ok(
        s.regions@[sk.regions@[i].spec_id() as int],
        s,
        id,
        repl,
    )
}

/// Whether `c1` is `c0` with `repl` spliced in for the half-edge `id`.
pub open spec fn cycle_updated(c0: Cycle, c1: Cycle, id: u64, repl: Seq<Handle<HalfEdge>>) -> bool {
    c1.half_edges@ == spliced(c0.half_edges@, id, repl)
}

/// How a cycle handle relates across a replacement: untouched cycles keep
/// their handle, touched ones are re-inserted under a fresh identity, so
/// the new handle refers, in the new stores `s1`, to the spliced cycle.
pub open spec fn cycle_handle_updated(
    h0: Handle<Cycle>,
    h1: Handle<Cycle>,
    id: u64,
    repl: Seq<Handle<HalfEdge>>,
    s0: Services,
    s1: Services,
) -> bool {
    let c0 = s0.cycles@[h0.spec_id() as int];
    if cycle_contains(c0, id) {
        &&& h1.spec_id() >= s0.cycles@.len()
        &&& h1.spec_id() < s1.cycles@.len()
        &&& cycle_updated(c0, s1.cycles@[h1.spec_id() as int], id, repl)
    } else {
        h1 == h0
    }
}

/// Whether `r1` is `r0` with the substitution applied to every cycle that
/// held the half-edge `id`, every other cycle shared by handle.
pub open spec fn region_updated(
    r0: Region,
    r1: Region,
    id: u64,
    repl: Seq<Handle<HalfEdge>>,
    s0: Services,
    s1: Services,
) -> bool {
    &&& r1.color == r0.color
    &&& r1.interiors@.len() == r0.interiors@.len()
    &&& cycle_handle_updated(r0.exterior, r1.exterior, id, repl, s0, s1)
    &&& forall|i: int| 0 <= i < r0.interiors@.len() ==> cycle_handle_updated(
        r0.interiors@[i],
        r1.interiors@[i],
        id,
        repl,
        s0,
        s1,
    )
}

/// How a region handle relates across a replacement.
pub open spec fn region_handle_updated(
    h0: Handle<Region>,
    h1: Handle<Region>,
    id: u64,
    repl: Seq<Handle<HalfEdge>>,
    s0: Services,
    s1: Services,
) -> bool {
    let r0 = s0.regions@[h0.spec_id() as int];
    if region_contains(r0, s0, id) {
        &&& h1.spec_id() >= s0.regions@.len()
        &&& h1.spec_id() < s1.regions@.len()
        &&& region_updated(r0, s1.regions@[h1.spec_id() as int], id, repl, s0, s1)
    } else {
        h1 == h0
    }
}

/// Whether `f1` is `f0` with the substitution applied to its region, the
/// surface shared by handle.
pub open spec fn face_updated(
    f0: Face,
    f1: Face,
    id: u64,
    repl: Seq<Handle<HalfEdge>>,
    s0: Services,
    s1: Services,
) -> bool {
    &&& f1.surface == f0.surface
    &&& region_handle_updated(f0.region, f1.region, id, repl, s0, s1)
}

/// How a face handle relates across a replacement.
pub open spec fn face_handle_updated(
    h0: Handle<Face>,
    h1: Handle<Face>,
    id: u64,
    repl: Seq<Handle<HalfEdge>>,
    s0: Services,
    s1: Services,
) -> bool {
    let f0 = s0.faces@[h0.spec_id() as int];
    if face_contains(f0, s0, id) {
        &&& h1.spec_id() >= s0.faces@.len()
        &&& h1.spec_id() < s1.faces@.len()
        &&& face_updated(f0, s1.faces@[h1.spec_id() as int], id, repl, s0, s1)
    } else {
        h1 == h0
    }
}

/// Whether `sh1` is `sh0` with the substitution applied to every face that
/// held the half-edge `id`, every other face shared by handle.
pub open spec fn shell_updated(
    sh0: Shell,
    sh1: Shell,
    id: u64,
    repl: Seq<Handle<HalfEdge>>,
    s0: Services,
    s1: Services,
) -> bool {
    &&& sh1.faces@.len() == sh0.faces@.len()
    &&& forall|i: int| 0 <= i < sh0.faces@.len() ==> face_handle_updated(
        sh0.faces@[i],
        sh1.faces@[i],
        id,
        repl,
        s0,
        s1,
    )
}

/// How a shell handle relates across a replacement.
pub open spec fn shell_handle_updated(
    h0: Handle<Shell>,
    h1: Handle<Shell>,
    id: u64,
    repl: Seq<Handle<HalfEdge>>,
    s0: Services,
    s1: Services,
) -> bool {
    let sh0 = s0.shells@[h0.spec_id() as int];
    if shell_contains(sh0, s0, id) {
        &&& h1.spec_id() >= s0.shells@.len()
        &&& h1.spec_id() < s1.shells@.len()
        &&& shell_updated(sh0, s1.shells@[h1.spec_id() as int], id, repl, s0, s1)
    } else {
        h1 == h0
    }
}

/// Whether `so1` is `so0` with the substitution applied to every shell
/// that held the half-edge `id`, every other shell shared by handle.
pub open spec fn solid_updated(
    so0: Solid,
    so1: Solid,
    id: u64,
    repl: Seq<Handle<HalfEdge>>,
    s0: Services,
    s1: Services,
) -> bool {
    &&& so1.shells@.len() == so0.shells@.len()
    &&& forall|i: int| 0 <= i < so0.shells@.len() ==> shell_handle_updated(
        so0.shells@[i],
        so1.shells@[i],
        id,
        repl,
        s0,
        s1,
    )
}

/// Whether `sk1` is `sk0` with the substitution applied to every region
/// that held the half-edge `id`, every other region shared by handle.
pub open spec fn sketch_updated(
    sk0: Sketch,
    sk1: Sketch,
    id: u64,
    repl: Seq<Handle<HalfEdge>>,
    s0: Services,
    s1: Services,
) -> bool {
    &&& sk1.regions@.len() == sk0.regions@.len()
    &&& forall|i: int| 0 <= i < sk0.regions@.len() ==> region_handle_updated(
        sk0.regions@[i],
        sk1.regions@[i],
        id,
        repl,
        s0,
        s1,
    )
}

/// Whether, between `a` and `b`, only the cycle store grew: every other
/// store is untouched, so in particular nothing of the receiver's own kind
/// was inserted.
pub open spec fn inserts_at_most_cycles(a: Services, b: Services) -> bool {
    &&& store_extends(a.cycles@, b.cycles@)
    &&& b.vertices@ == a.vertices@
    &&& b.half_edges@ == a.half_edges@
    &&& b.regions@ == a.regions@
    &&& b.surfaces@ == a.surfaces@
    &&& b.faces@ == a.faces@
    &&& b.shells@ == a.shells@
    &&& b.solids@ == a.solids@
    &&& b.sketches@ == a.sketches@
}

/// Whether, between `a` and `b`, only the cycle and region stores grew.
pub open spec fn inserts_at_most_regions(a: Services, b: Services) -> bool {
    &&& store_extends(a.cycles@, b.cycles@)
    &&& store_extends(a.regions@, b.regions@)
    &&& b.vertices@ == a.vertices@
    &&& b.half_edges@ == a.half_edges@
    &&& b.surfaces@ == a.surfaces@
    &&& b.faces@ == a.faces@
    &&& b.shells@ == a.shells@
    &&& b.solids@ == a.solids@
    &&& b.sketches@ == a.sketches@
}

/// Whether, between `a` and `b`, only the cycle, region and face stores
/// grew.
pub open spec fn inserts_at_most_faces(a: Services, b: Services) -> bool {
    &&& store_extends(a.cycles@, b.cycles@)
    &&& store_extends(a.regions@, b.regions@)
    &&& store_extends(a.faces@, b.faces@)
    &&& b.vertices@ == a.vertices@
    &&& b.half_edges@ == a.half_edges@
    &&& b.surfaces@ == a.surfaces@
    &&& b.shells@ == a.shells@
    &&& b.solids@ == a.solids@
    &&& b.sketches@ == a.sketches@
}

/// Whether, between `a` and `b`, only the cycle, region, face and shell
/// stores grew.
pub open spec fn inserts_at_most_shells(a: Services, b: Services) -> bool {
    &&& store_extends(a.cycles@, b.cycles@)
    &&& store_extends(a.regions@, b.regions@)
    &&& store_extends(a.faces@, b.faces@)
    &&& store_extends(a.shells@, b.shells@)
    &&& b.vertices@ == a.vertices@
    &&& b.half_edges@ == a.half_edges@
    &&& b.surfaces@ == a.surfaces@
    &&& b.solids@ == a.solids@
    &&& b.sketches@ == a.sketches@
}

/// A cycle handle relation is preserved as the new stores grow further.
pub proof fn lemma_cycle_handle_updated_extend(
    h0: Handle<Cycle>,
    h1: Handle<Cycle>,
    id: u64,
    repl: Seq<Handle<HalfEdge>>,
    s0: Services,
    a: Services,
    b: Services,
)
    requires
        cycle_handle_updated(h0, h1, id, repl, s0, a),
        services_extend(a, b),
    ensures
        cycle_handle_updated(h0, h1, id, repl, s0, b),
{
    let c0 = s0.cycles@[h0.spec_id() as int];
    if cycle_contains(c0, id) {
        assert(b.cycles@[h1.spec_id() as int] == a.cycles@[h1.spec_id() as int]);
    }
}

/// A region handle relation is preserved as the new stores grow further.
pub proof fn lemma_region_updated_extend(
    r0: Region,
    r1: Region,
    id: u64,
    repl: Seq<Handle<HalfEdge>>,
    s0: Services,
    a: Services,
    b: Services,
)
    requires
        region_updated(r0, r1, id, repl, s0, a),
        services_extend(a, b),
    ensures
        region_updated(r0, r1, id, repl, s0, b),
{
    lemma_cycle_handle_updated_extend(r0.exterior, r1.exterior, id, repl, s0, a, b);
    assert forall|i: int| 0 <= i < r0.interiors@.len() implies cycle_handle_updated(
        r0.interiors@[i],
        r1.interiors@[i],
        id,
        repl,
        s0,
        b,
    ) by {
        lemma_cycle_handle_updated_extend(r0.interiors@[i], r1.interiors@[i], id, repl, s0, a, b);
    }
}

/// A region handle relation is preserved as the new stores grow further.
pub proof fn lemma_region_handle_updated_extend(
    h0: Handle<Region>,
    h1: Handle<Region>,
    id: u64,
    repl: Seq<Handle<HalfEdge>>,
    s0: Services,
    a: Services,
    b: Services,
)
    requires
        region_handle_updated(h0, h1, id, repl, s0, a),
        services_extend(a, b),
    ensures
        region_handle_updated(h0, h1, id, repl, s0, b),
{
    let r0 = s0.regions@[h0.spec_id() as int];
    if region_contains(r0, s0, id) {
        assert(b.regions@[h1.spec_id() as int] == a.regions@[h1.spec_id() as int]);
        lemma_region_updated_extend(r0, a.regions@[h1.spec_id() as int], id, repl, s0, a, b);
    }
}

/// A face relation is preserved as the new stores grow further.
pub proof fn lemma_face_updated_extend(
    f0: Face,
    f1: Face,
    id: u64,
    repl: Seq<Handle<HalfEdge>>,
    s0: Services,
    a: Services,
    b: Services,
)
    requires
        face_updated(f0, f1, id, repl, s0, a),
        services_extend(a, b),
    ensures
        face_updated(f0, f1, id, repl, s0, b),
{
    lemma_region_handle_updated_extend(f0.region, f1.region, id, repl, s0, a, b);
}

/// A face handle relation is preserved as the new stores grow further.
pub proof fn lemma_face_handle_updated_extend(
    h0: Handle<Face>,
    h1: Handle<Face>,
    id: u64,
    repl: Seq<Handle<HalfEdge>>,
    s0: Services,
    a: Services,
    b: Services,
)
    requires
        face_handle_updated(h0, h1, id, repl, s0, a),
        services_extend(a, b),
    ensures
        face_handle_updated(h0, h1, id, repl, s0, b),
{
    let f0 = s0.faces@[h0.spec_id() as int];
    if face_contains(f0, s0, id) {
        assert(b.faces@[h1.spec_id() as int] == a.faces@[h1.spec_id() as int]);
        lemma_face_updated_extend(f0, a.faces@[h1.spec_id() as int], id, repl, s0, a, b);
    }
}

/// A shell relation is preserved as the new stores grow further.
pub proof fn lemma_shell_updated_extend(
    sh0: Shell,
    sh1: Shell,
    id: u64,
    repl: Seq<Handle<HalfEdge>>,
    s0: Services,
    a: Services,
    b: Services,
)
    requires
        shell_updated(sh0, sh1, id, repl, s0, a),
        services_extend(a, b),
    ensures
        shell_updated(sh0, sh1, id, repl, s0, b),
{
    assert forall|i: int| 0 <= i < sh0.faces@.len() implies face_handle_updated(
        sh0.faces@[i],
        sh1.faces@[i],
        id,
        repl,
        s0,
        b,
    ) by {
        lemma_face_handle_updated_extend(sh0.faces@[i], sh1.faces@[i], id, repl, s0, a, b);
    }
}

/// A shell handle relation is preserved as the new stores grow further.
pub proof fn lemma_shell_handle_updated_extend(
    h0: Handle<Shell>,
    h1: Handle<Shell>,
    id: u64,
    repl: Seq<Handle<HalfEdge>>,
    s0: Services,
    a: Services,
    b: Services,
)
    requires
        shell_handle_updated(h0, h1, id, repl, s0, a),
        services_extend(a, b),
    ensures
        shell_handle_updated(h0, h1, id, repl, s0, b),
{
    let sh0 = s0.shells@[h0.spec_id() as int];
    if shell_contains(sh0, s0, id) {
        assert(b.shells@[h1.spec_id() as int] == a.shells@[h1.spec_id() as int]);
        lemma_shell_updated_extend(sh0, a.shells@[h1.spec_id() as int], id, repl, s0, a, b);
    }
}

/// Whether a region holds a half-edge does not depend on entries appended
/// after the region's children.
pub proof fn lemma_region_contains_stable(r: Region, id: u64, a: Services, b: Services)
    requires
        region_valid(r, a),
        services_extend(a, b),
    ensures
        region_contains(r, b, id) == region_contains(r, a, id),
{
    assert(b.cycles@[r.exterior.spec_id() as int] == a.cycles@[r.exterior.spec_id() as int]);
    assert forall|i: int| 0 <= i < r.interiors@.len() implies b.cycles@[(
    #[trigger] r.interiors@[i]).spec_id() as int] == a.cycles@[r.interiors@[i].spec_id() as int] by {
    }
}

/// Whether a region's splices stay duplicate-free does not depend on
/// entries appended after the region's children.
pub proof fn lemma_region_splice_ok_stable(
    r: Region,
    id: u64,
    repl: Seq<Handle<HalfEdge>>,
    a: Services,
    b: Services,
)
    requires
        region_valid(r, a),
        services_extend(a, b),
    ensures
        region_splice_ok(r, b, id, repl) == region_splice_ok(r, a, id, repl),
{
    assert(b.cycles@[r.exterior.spec_id() as int] == a.cycles@[r.exterior.spec_id() as int]);
    assert forall|i: int| 0 <= i < r.interiors@.len() implies b.cycles@[(
    #[trigger] r.interiors@[i]).spec_id() as int] == a.cycles@[r.interiors@[i].spec_id() as int] by {
    }
}

/// Whether a face holds a half-edge does not depend on entries appended
/// after the face's children.
pub proof fn lemma_face_contains_stable(f: Face, id: u64, a: Services, b: Services)
    requires
        face_valid(f, a),
        services_extend(a, b),
    ensures
        face_contains(f, b, id) == face_contains(f, a, id),
{
    let r = a.regions@[f.region.spec_id() as int];
    assert(b.regions@[f.region.spec_id() as int] == r);
    lemma_region_contains_stable(r, id, a, b);
}

/// Whether a face's splices stay duplicate-free does not depend on entries
/// appended after the face's children.
pub proof fn lemma_face_splice_ok_stable(
    f: Face,
    id: u64,
    repl: Seq<Handle<HalfEdge>>,
    a: Services,
    b: Services,
)
    requires
        face_valid(f, a),
        services_extend(a, b),
    ensures
        face_splice_ok(f, b, id, repl) == face_splice_ok(f, a, id, repl),
{
    let r = a.regions@[f.region.spec_id() as int];
    assert(b.regions@[f.region.spec_id() as int] == r);
    lemma_region_splice_ok_stable(r, id, repl, a, b);
}

/// Whether a shell holds a half-edge does not depend on entries appended
/// after the shell's children.
pub proof fn lemma_shell_contains_stable(sh: Shell, id: u64, a: Services, b: Services)
    requires
        shell_valid(sh, a),
        services_extend(a, b),
    ensures
        shell_contains(sh, b, id) == shell_contains(sh, a, id),
{
    assert forall|i: int| 0 <= i < sh.faces@.len() implies face_contains(
        b.faces@[(#[trigger] sh.faces@[i]).spec_id() as int],
        b,
        id,
    ) == face_contains(a.faces@[sh.faces@[i].spec_id() as int], a, id) by {
        let fid = sh.faces@[i].spec_id() as int;
        assert(b.faces@[fid] == a.faces@[fid]);
        lemma_face_contains_stable(a.faces@[fid], id, a, b);
    }
}

/// Whether a shell's splices stay duplicate-free does not depend on
/// entries appended after the shell's children.
pub proof fn lemma_shell_splice_ok_stable(
    sh: Shell,
    id: u64,
    repl: Seq<Handle<HalfEdge>>,
    a: Services,
    b: Services,
)
    requires
        shell_valid(sh, a),
        services_extend(a, b),
    ensures
        shell_splice_ok(sh, b, id, repl) == shell_splice_ok(sh, a, id, repl),
{
    assert forall|i: int| 0 <= i < sh.faces@.len() implies face_splice_ok(
        b.faces@[(#[trigger] sh.faces@[i]).spec_id() as int],
        b,
        id,
        repl,
    ) == face_splice_ok(a.faces@[sh.faces@[i].spec_id() as int], a, id, repl) by {
        let fid = sh.faces@[i].spec_id() as int;
        assert(b.faces@[fid] == a.faces@[fid]);
        lemma_face_splice_ok_stable(a.faces@[fid], id, repl, a, b);
    }
}

/// A cycle handle relation stated at grown stores also holds at the stores
/// the old handle was read from.
pub proof fn lemma_cycle_handle_updated_shrink(
    h0: Handle<Cycle>,
    h1: Handle<Cycle>,
    id: u64,
    repl: Seq<Handle<HalfEdge>>,
    a: Services,
    b: Services,
    s1: Services,
)
    requires
        h0.spec_id() < a.cycles@.len(),
        services_extend(a, b),
        cycle_handle_updated(h0, h1, id, repl, b, s1),
    ensures
        cycle_handle_updated(h0, h1, id, repl, a, s1),
{
    assert(b.cycles@[h0.spec_id() as int] == a.cycles@[h0.spec_id() as int]);
}

/// A region relation stated at grown stores also holds at the stores the
/// old region was read from.
pub proof fn lemma_region_updated_shrink(
    r0: Region,
    r1: Region,
    id: u64,
    repl: Seq<Handle<HalfEdge>>,
    a: Services,
    b: Services,
    s1: Services,
)
    requires
        region_valid(r0, a),
        services_extend(a, b),
        region_updated(r0, r1, id, repl, b, s1),
    ensures
        region_updated(r0, r1, id, repl, a, s1),
{
    lemma_cycle_handle_updated_shrink(r0.exterior, r1.exterior, id, repl, a, b, s1);
    assert forall|i: int| 0 <= i < r0.interiors@.len() implies cycle_handle_updated(
        r0.interiors@[i],
        r1.interiors@[i],
        id,
        repl,
        a,
        s1,
    ) by {
        lemma_cycle_handle_updated_shrink(r0.interiors@[i], r1.interiors@[i], id, repl, a, b, s1);
    }
}

/// A region handle relation stated at grown stores also holds at the
/// stores the old handle was read from.
pub proof fn lemma_region_handle_updated_shrink(
    h0: Handle<Region>,
    h1: Handle<Region>,
    id: u64,
    repl: Seq<Handle<HalfEdge>>,
    a: Services,
    b: Services,
    s1: Services,
)
    requires
        h0.spec_id() < a.regions@.len(),
        region_valid(a.regions@[h0.spec_id() as int], a),
        services_extend(a, b),
        region_handle_updated(h0, h1, id, repl, b, s1),
    ensures
        region_handle_updated(h0, h1, id, repl, a, s1),
{
    let r0 = a.regions@[h0.spec_id() as int];
    assert(b.regions@[h0.spec_id() as int] == r0);
    lemma_region_contains_stable(r0, id, a, b);
    if region_contains(r0, a, id) {
        lemma_region_updated_shrink(r0, s1.regions@[h1.spec_id() as int], id, repl, a, b, s1);
    }
}

/// A face relation stated at grown stores also holds at the stores the old
/// face was read from.
pub proof fn lemma_face_updated_shrink(
    f0: Face,
    f1: Face,
    id: u64,
    repl: Seq<Handle<HalfEdge>>,
    a: Services,
    b: Services,
    s1: Services,
)
    requires
        face_valid(f0, a),
        services_extend(a, b),
        face_updated(f0, f1, id, repl, b, s1),
    ensures
        face_updated(f0, f1, id, repl, a, s1),
{
    lemma_region_handle_updated_shrink(f0.region, f1.region, id, repl, a, b, s1);
}

/// A face handle relation stated at grown stores also holds at the stores
/// the old handle was read from.
pub proof fn lemma_face_handle_updated_shrink(
    h0: Handle<Face>,
    h1: Handle<Face>,
    id: u64,
    repl: Seq<Handle<HalfEdge>>,
    a: Services,
    b: Services,
    s1: Services,
)
    requires
        h0.spec_id() < a.faces@.len(),
        face_valid(a.faces@[h0.spec_id() as int], a),
        services_extend(a, b),
        face_handle_updated(h0, h1, id, repl, b, s1),
    ensures
        face_handle_updated(h0, h1, id, repl, a, s1),
{
    let f0 = a.faces@[h0.spec_id() as int];
    assert(b.faces@[h0.spec_id() as int] == f0);
    lemma_face_contains_stable(f0, id, a, b);
    if face_contains(f0, a, id) {
        lemma_face_updated_shrink(f0, s1.faces@[h1.spec_id() as int], id, repl, a, b, s1);
    }
}

/// A shell relation stated at grown stores also holds at the stores the
/// old shell was read from.
pub proof fn lemma_shell_updated_shrink(
    sh0: Shell,
    sh1: Shell,
    id: u64,
    repl: Seq<Handle<HalfEdge>>,
    a: Services,
    b: Services,
    s1: Services,
)
    requires
        shell_valid(sh0, a),
        services_extend(a, b),
        shell_updated(sh0, sh1, id, repl, b, s1),
    ensures
        shell_updated(sh0, sh1, id, repl, a, s1),
{
    assert forall|i: int| 0 <= i < sh0.faces@.len() implies face_handle_updated(
        sh0.faces@[i],
        sh1.faces@[i],
        id,
        repl,
        a,
        s1,
    ) by {
        lemma_face_handle_updated_shrink(sh0.faces@[i], sh1.faces@[i], id, repl, a, b, s1);
    }
}

/// Replace a half-edge in the referenced object graph.
///
/// The substitution propagates from the half-edge up through every
/// enclosing level; each level reports, in its outcome, whether the target
/// was present, and hands back either the original object or the rebuilt
/// one, bare. Rebuilt children below the receiver are inserted into the
/// stores on the way.
pub trait ReplaceHalfEdge: Sized {
    /// The bare object type that this trait is implemented for.
    type BareObject;

    /// What the receiver asks of its caller, at the stores `services`.
    spec fn replace_req(
        &self,
        original: Handle<HalfEdge>,
        replacements: Seq<Handle<HalfEdge>>,
        services: Services,
    ) -> bool;

    /// What the outcome guarantees, between the stores before and after.
    spec fn replace_ens(
        &self,
        original: Handle<HalfEdge>,
        replacements: Seq<Handle<HalfEdge>>,
        old_services: Services,
        new_services: Services,
        out: ReplaceOutput<Self, Self::BareObject>,
    ) -> bool;

    /// Replace the half-edge.
    fn replace_half_edge(
        &self,
        original: &Handle<HalfEdge>,
        replacements: &[Handle<HalfEdge>],
        services: &mut Services,
    ) -> (out: ReplaceOutput<Self, Self::BareObject>)
        requires
            self.replace_req(*original, replacements@, *old(services)),
        ensures
            self.replace_ens(*original, replacements@, *old(services), *final(services), out),
    ;
}

impl ReplaceHalfEdge for Cycle {
    type BareObject = Cycle;

    open spec fn replace_req(
        &self,
        original: Handle<HalfEdge>,
        replacements: Seq<Handle<HalfEdge>>,
        services: Services,
    ) -> bool {
        cycle_splice_ok(*self, original.spec_id(), replacements)
    }

    open spec fn replace_ens(
        &self,
        original: Handle<HalfEdge>,
        replacements: Seq<Handle<HalfEdge>>,
        old_services: Services,
        new_services: Services,
        out: ReplaceOutput<Self, Self::BareObject>,
    ) -> bool {
        &&& new_services == old_services
        &&& out.spec_was_updated() == cycle_contains(*self, original.spec_id())
        &&& match out {
            ReplaceOutput::Original(c) => cycle_equiv(c, *self),
            ReplaceOutput::Updated(c) => cycle_updated(*self, c, original.spec_id(), replacements),
        }
    }

    fn replace_half_edge(
        &self,
        original: &Handle<HalfEdge>,
        replacements: &[Handle<HalfEdge>],
        services: &mut Services,
    ) -> (out: ReplaceOutput<Self, Self::BareObject>) {
        match self.half_edges.replace(original, replacements) {
            Some(half_edges) => ReplaceOutput::Updated(Cycle::new(half_edges)),
            None => ReplaceOutput::Original(self.clone()),
        }
    }
}

impl ReplaceHalfEdge for Handle<Cycle> {
    type BareObject = Cycle;

    open spec fn replace_req(
        &self,
        original: Handle<HalfEdge>,
        replacements: Seq<Handle<HalfEdge>>,
        services: Services,
    ) -> bool {
        &&& self.spec_id() < services.cycles@.len()
        &&& cycle_splice_ok(
            services.cycles@[self.spec_id() as int],
            original.spec_id(),
            replacements,
        )
    }

    open spec fn replace_ens(
        &self,
        original: Handle<HalfEdge>,
        replacements: Seq<Handle<HalfEdge>>,
        old_services: Services,
        new_services: Services,
        out: ReplaceOutput<Self, Self::BareObject>,
    ) -> bool {
        let c0 = old_services.cycles@[self.spec_id() as int];
        &&& new_services == old_services
        &&& out.spec_was_updated() == cycle_contains(c0, original.spec_id())
        &&& match out {
            ReplaceOutput::Original(h) => h == *self,
            ReplaceOutput::Updated(c) => cycle_updated(c0, c, original.spec_id(), replacements),
        }
    }

    fn replace_half_edge(
        &self,
        original: &Handle<HalfEdge>,
        replacements: &[Handle<HalfEdge>],
        services: &mut Services,
    ) -> (out: ReplaceOutput<Self, Self::BareObject>) {
        let cycle = services.cycles.get(self).clone();
        match cycle.replace_half_edge(original, replacements, services) {
            ReplaceOutput::Original(_) => ReplaceOutput::Original(*self),
            ReplaceOutput::Updated(c) => ReplaceOutput::Updated(c),
        }
    }
}

impl ReplaceHalfEdge for Region {
    type BareObject = Region;

    open spec fn replace_req(
        &self,
        original: Handle<HalfEdge>,
        replacements: Seq<Handle<HalfEdge>>,
        services: Services,
    ) -> bool {
        &&& region_valid(*self, services)
        &&& region_splice_ok(*self, services, original.spec_id(), replacements)
    }

    open spec fn replace_ens(
        &self,
        original: Handle<HalfEdge>,
        replacements: Seq<Handle<HalfEdge>>,
        old_services: Services,
        new_services: Services,
        out: ReplaceOutput<Self, Self::BareObject>,
    ) -> bool {
        &&& services_extend(old_services, new_services)
        &&& inserts_at_most_cycles(old_services, new_services)
        &&& !region_contains(*self, old_services, original.spec_id()) ==> new_services
            == old_services
        &&& out.spec_was_updated() == region_contains(*self, old_services, original.spec_id())
        &&& match out {
            ReplaceOutput::Original(r) => region_equiv(r, *self),
            ReplaceOutput::Updated(r) => region_updated(
                *self,
                r,
                original.spec_id(),
                replacements,
                old_services,
                new_services,
            ),
        }
    }

    fn replace_half_edge(
        &self,
        original: &Handle<HalfEdge>,
        replacements: &[Handle<HalfEdge>],
        services: &mut Services,
    ) -> (out: ReplaceOutput<Self, Self::BareObject>) {
        let ghost s0 = *services;
        let ghost id = original.spec_id();
        let ghost repl = replacements@;
        proof {
            use_type_invariant(&self.interiors);
        }

        let mut replacement_happened = false;

        let ext_out = self.exterior.replace_half_edge(original, replacements, services);
        let exterior: Handle<Cycle> = match ext_out {
            ReplaceOutput::Original(h) => h,
            ReplaceOutput::Updated(bare) => {
                replacement_happened = true;
                services.cycles.insert(bare)
            },
        };

        let mut interiors: Vec<Handle<Cycle>> = Vec::new();
        let n = self.interiors.len();
        let mut i: usize = 0;
        while i < n
            invariant
                n == self.interiors@.len(),
                i <= n,
                interiors@.len() == i as int,
                distinct_ids(self.interiors@),
                region_valid(*self, s0),
                region_splice_ok(*self, s0, id, repl),
                id == original.spec_id(),
                repl == replacements@,
                services_extend(s0, *services),
                inserts_at_most_cycles(s0, *services),
                cycle_handle_updated(self.exterior, exterior, id, repl, s0, *services),
                forall|j: int| 0 <= j < i ==> cycle_handle_updated(
                    self.interiors@[j],
                    #[trigger] interiors@[j],
                    id,
                    repl,
                    s0,
                    *services,
                ),
                forall|j: int| 0 <= j < i ==> (#[trigger] interiors@[j]).spec_id()
                    < services.cycles@.len(),
                forall|j: int| 0 <= j < i ==> (#[trigger] interiors@[j] == self.interiors@[j]
                    || interiors@[j].spec_id() >= s0.cycles@.len()),
                distinct_ids(interiors@),
                replacement_happened == (cycle_contains(
                    s0.cycles@[self.exterior.spec_id() as int],
                    id,
                ) || exists|j: int| 0 <= j < i && cycle_contains(
                    s0.cycles@[self.interiors@[j].spec_id() as int],
                    id,
                )),
                !replacement_happened ==> *services == s0,
            decreases n - i,
        {
            let h: Handle<Cycle> = *self.interiors.nth(i).unwrap();
            let ghost s_pre = *services;
            let c_out = h.replace_half_edge(original, replacements, services);
            let h2: Handle<Cycle> = match c_out {
                ReplaceOutput::Original(hh) => hh,
                ReplaceOutput::Updated(bare) => {
                    replacement_happened = true;
                    services.cycles.insert(bare)
                },
            };
            interiors.push(h2);
            proof {
                lemma_cycle_handle_updated_extend(
                    self.exterior,
                    exterior,
                    id,
                    repl,
                    s0,
                    s_pre,
                    *services,
                );
                assert forall|j: int| 0 <= j < i + 1 implies cycle_handle_updated(
                    self.interiors@[j],
                    #[trigger] interiors@[j],
                    id,
                    repl,
                    s0,
                    *services,
                ) by {
                    if j < i {
                        lemma_cycle_handle_updated_extend(
                            self.interiors@[j],
                            interiors@[j],
                            id,
                            repl,
                            s0,
                            s_pre,
                            *services,
                        );
                    }
                }
            }
            i += 1;
        }

        if replacement_happened {
            let interiors_set = ObjectSet::new(interiors);
            ReplaceOutput::Updated(Region::new(exterior, interiors_set, self.color))
        } else {
            ReplaceOutput::Original(self.clone())
        }
    }
}

impl ReplaceHalfEdge for Handle<Region> {
    type BareObject = Region;

    open spec fn replace_req(
        &self,
        original: Handle<HalfEdge>,
        replacements: Seq<Handle<HalfEdge>>,
        services: Services,
    ) -> bool {
        &&& self.spec_id() < services.regions@.len()
        &&& services.regions@[self.spec_id() as int].replace_req(original, replacements, services)
    }

    open spec fn replace_ens(
        &self,
        original: Handle<HalfEdge>,
        replacements: Seq<Handle<HalfEdge>>,
        old_services: Services,
        new_services: Services,
        out: ReplaceOutput<Self, Self::BareObject>,
    ) -> bool {
        let r0 = old_services.regions@[self.spec_id() as int];
        &&& services_extend(old_services, new_services)
        &&& inserts_at_most_cycles(old_services, new_services)
        &&& !region_contains(r0, old_services, original.spec_id()) ==> new_services == old_services
        &&& out.spec_was_updated() == region_contains(r0, old_services, original.spec_id())
        &&& match out {
            ReplaceOutput::Original(h) => h == *self,
            ReplaceOutput::Updated(r) => region_updated(
                r0,
                r,
                original.spec_id(),
                replacements,
                old_services,
                new_services,
            ),
        }
    }

    fn replace_half_edge(
        &self,
        original: &Handle<HalfEdge>,
        replacements: &[Handle<HalfEdge>],
        services: &mut Services,
    ) -> (out: ReplaceOutput<Self, Self::BareObject>) {
        let region = services.regions.get(self).clone();
        match region.replace_half_edge(original, replacements, services) {
            ReplaceOutput::Original(_) => ReplaceOutput::Original(*self),
            ReplaceOutput::Updated(r) => ReplaceOutput::Updated(r),
        }
    }
}

impl ReplaceHalfEdge for Face {
    type BareObject = Face;

    open spec fn replace_req(
        &self,
        original: Handle<HalfEdge>,
        replacements: Seq<Handle<HalfEdge>>,
        services: Services,
    ) -> bool {
        &&& face_valid(*self, services)
        &&& face_splice_ok(*self, services, original.spec_id(), replacements)
    }

    open spec fn replace_ens(
        &self,
        original: Handle<HalfEdge>,
        replacements: Seq<Handle<HalfEdge>>,
        old_services: Services,
        new_services: Services,
        out: ReplaceOutput<Self, Self::BareObject>,
    ) -> bool {
        &&& services_extend(old_services, new_services)
        &&& inserts_at_most_regions(old_services, new_services)
        &&& !face_contains(*self, old_services, original.spec_id()) ==> new_services
            == old_services
        &&& out.spec_was_updated() == face_contains(*self, old_services, original.spec_id())
        &&& match out {
            ReplaceOutput::Original(f) => f == *self,
            ReplaceOutput::Updated(f) => face_updated(
                *self,
                f,
                original.spec_id(),
                replacements,
                old_services,
                new_services,
            ),
        }
    }

    fn replace_half_edge(
        &self,
        original: &Handle<HalfEdge>,
        replacements: &[Handle<HalfEdge>],
        services: &mut Services,
    ) -> (out: ReplaceOutput<Self, Self::BareObject>) {
        let ghost s0 = *services;
        let ghost id = original.spec_id();
        let ghost repl = replacements@;
        let r_out = self.region.replace_half_edge(original, replacements, services);
        match r_out {
            ReplaceOutput::Original(_) => ReplaceOutput::Original(*self),
            ReplaceOutput::Updated(bare) => {
                let ghost s_mid = *services;
                let rh = services.regions.insert(bare);
                proof {
                    lemma_region_updated_extend(
                        s0.regions@[self.region.spec_id() as int],
                        bare,
                        id,
                        repl,
                        s0,
                        s_mid,
                        *services,
                    );
                }
                ReplaceOutput::Updated(Face::new(self.surface, rh))
            },
        }
    }
}

impl ReplaceHalfEdge for Handle<Face> {
    type BareObject = Face;

    open spec fn replace_req(
        &self,
        original: Handle<HalfEdge>,
        replacements: Seq<Handle<HalfEdge>>,
        services: Services,
    ) -> bool {
        &&& self.spec_id() < services.faces@.len()
        &&& services.faces@[self.spec_id() as int].replace_req(original, replacements, services)
    }

    open spec fn replace_ens(
        &self,
        original: Handle<HalfEdge>,
        replacements: Seq<Handle<HalfEdge>>,
        old_services: Services,
        new_services: Services,
        out: ReplaceOutput<Self, Self::BareObject>,
    ) -> bool {
        let f0 = old_services.faces@[self.spec_id() as int];
        &&& services_extend(old_services, new_services)
        &&& inserts_at_most_regions(old_services, new_services)
        &&& !face_contains(f0, old_services, original.spec_id()) ==> new_services == old_services
        &&& out.spec_was_updated() == face_contains(f0, old_services, original.spec_id())
        &&& match out {
            ReplaceOutput::Original(h) => h == *self,
            ReplaceOutput::Updated(f) => face_updated(
                f0,
                f,
                original.spec_id(),
                replacements,
                old_services,
                new_services,
            ),
        }
    }

    fn replace_half_edge(
        &self,
        original: &Handle<HalfEdge>,
        replacements: &[Handle<HalfEdge>],
        services: &mut Services,
    ) -> (out: ReplaceOutput<Self, Self::BareObject>) {
        let face = *services.faces.get(self);
        match face.replace_half_edge(original, replacements, services) {
            ReplaceOutput::Original(_) => ReplaceOutput::Original(*self),
            ReplaceOutput::Updated(f) => ReplaceOutput::Updated(f),
        }
    }
}

impl ReplaceHalfEdge for Shell {
    type BareObject = Shell;

    open spec fn replace_req(
        &self,
        original: Handle<HalfEdge>,
        replacements: Seq<Handle<HalfEdge>>,
        services: Services,
    ) -> bool {
        &&& shell_valid(*self, services)
        &&& shell_splice_ok(*self, services, original.spec_id(), replacements)
    }

    open spec fn replace_ens(
        &self,
        original: Handle<HalfEdge>,
        replacements: Seq<Handle<HalfEdge>>,
        old_services: Services,
        new_services: Services,
        out: ReplaceOutput<Self, Self::BareObject>,
    ) -> bool {
        &&& services_extend(old_services, new_services)
        &&& inserts_at_most_faces(old_services, new_services)
        &&& !shell_contains(*self, old_services, original.spec_id()) ==> new_services
            == old_services
        &&& out.spec_was_updated() == shell_contains(*self, old_services, original.spec_id())
        &&& match out {
            ReplaceOutput::Original(sh) => shell_equiv(sh, *self),
            ReplaceOutput::Updated(sh) => shell_updated(
                *self,
                sh,
                original.spec_id(),
                replacements,
                old_services,
                new_services,
            ),
        }
    }

    fn replace_half_edge(
        &self,
        original: &Handle<HalfEdge>,
        replacements: &[Handle<HalfEdge>],
        services: &mut Services,
    ) -> (out: ReplaceOutput<Self, Self::BareObject>) {
        let ghost s0 = *services;
        let ghost id = original.spec_id();
        let ghost repl = replacements@;
        proof {
            use_type_invariant(&self.faces);
        }

        let mut replacement_happened = false;
        let mut faces: Vec<Handle<Face>> = Vec::new();
        let n = self.faces.len();
        let mut i: usize = 0;
        while i < n
            invariant
                n == self.faces@.len(),
                i <= n,
                faces@.len() == i as int,
                distinct_ids(self.faces@),
                shell_valid(*self, s0),
                shell_splice_ok(*self, s0, id, repl),
                id == original.spec_id(),
                repl == replacements@,
                services_extend(s0, *services),
                inserts_at_most_faces(s0, *services),
                forall|j: int| 0 <= j < i ==> face_handle_updated(
                    self.faces@[j],
                    #[trigger] faces@[j],
                    id,
                    repl,
                    s0,
                    *services,
                ),
                forall|j: int| 0 <= j < i ==> (#[trigger] faces@[j]).spec_id()
                    < services.faces@.len(),
                forall|j: int| 0 <= j < i ==> (#[trigger] faces@[j] == self.faces@[j]
                    || faces@[j].spec_id() >= s0.faces@.len()),
                distinct_ids(faces@),
                replacement_happened == exists|j: int| 0 <= j < i && face_contains(
                    s0.faces@[self.faces@[j].spec_id() as int],
                    s0,
                    id,
                ),
                !replacement_happened ==> *services == s0,
            decreases n - i,
        {
            let h: Handle<Face> = *self.faces.nth(i).unwrap();
            let ghost s_pre = *services;
            let ghost f0 = s0.faces@[h.spec_id() as int];
            proof {
                lemma_face_valid_extend(f0, s0, s_pre);
                lemma_face_splice_ok_stable(f0, id, repl, s0, s_pre);
            }
            let f_out = h.replace_half_edge(original, replacements, services);
            let ghost s_mid = *services;
            let h2: Handle<Face> = match f_out {
                ReplaceOutput::Original(hh) => hh,
                ReplaceOutput::Updated(bare) => {
                    replacement_happened = true;
                    let hb = services.faces.insert(bare);
                    proof {
                        lemma_face_updated_shrink(f0, bare, id, repl, s0, s_pre, s_mid);
                        lemma_face_updated_extend(f0, bare, id, repl, s0, s_mid, *services);
                    }
                    hb
                },
            };
            faces.push(h2);
            proof {
                lemma_face_contains_stable(f0, id, s0, s_pre);
                assert(face_handle_updated(h, h2, id, repl, s0, *services));
                assert forall|j: int| 0 <= j < i + 1 implies face_handle_updated(
                    self.faces@[j],
                    #[trigger] faces@[j],
                    id,
                    repl,
                    s0,
                    *services,
                ) by {
                    if j < i {
                        lemma_face_handle_updated_extend(
                            self.faces@[j],
                            faces@[j],
                            id,
                            repl,
                            s0,
                            s_pre,
                            *services,
                        );
                    }
                }
            }
            i += 1;
        }

        if replacement_happened {
            let faces_set = ObjectSet::new(faces);
            ReplaceOutput::Updated(Shell::new(faces_set))
        } else {
            ReplaceOutput::Original(self.clone())
        }
    }
}

impl ReplaceHalfEdge for Handle<Shell> {
    type BareObject = Shell;

    open spec fn replace_req(
        &self,
        original: Handle<HalfEdge>,
        replacements: Seq<Handle<HalfEdge>>,
        services: Services,
    ) -> bool {
        &&& self.spec_id() < services.shells@.len()
        &&& services.shells@[self.spec_id() as int].replace_req(original, replacements, services)
    }

    open spec fn replace_ens(
        &self,
        original: Handle<HalfEdge>,
        replacements: Seq<Handle<HalfEdge>>,
        old_services: Services,
        new_services: Services,
        out: ReplaceOutput<Self, Self::BareObject>,
    ) -> bool {
        let sh0 = old_services.shells@[self.spec_id() as int];
        &&& services_extend(old_services, new_services)
        &&& inserts_at_most_faces(old_services, new_services)
        &&& !shell_contains(sh0, old_services, original.spec_id()) ==> new_services == old_services
        &&& out.spec_was_updated() == shell_contains(sh0, old_services, original.spec_id())
        &&& match out {
            ReplaceOutput::Original(h) => h == *self,
            ReplaceOutput::Updated(sh) => shell_updated(
                sh0,
                sh,
                original.spec_id(),
                replacements,
                old_services,
                new_services,
            ),
        }
    }

    fn replace_half_edge(
        &self,
        original: &Handle<HalfEdge>,
        replacements: &[Handle<HalfEdge>],
        services: &mut Services,
    ) -> (out: ReplaceOutput<Self, Self::BareObject>) {
        let shell = services.shells.get(self).clone();
        match shell.replace_half_edge(original, replacements, services) {
            ReplaceOutput::Original(_) => ReplaceOutput::Original(*self),
            ReplaceOutput::Updated(sh) => ReplaceOutput::Updated(sh),
        }
    }
}

impl ReplaceHalfEdge for Sketch {
    type BareObject = Sketch;

    open spec fn replace_req(
        &self,
        original: Handle<HalfEdge>,
        replacements: Seq<Handle<HalfEdge>>,
        services: Services,
    ) -> bool {
        &&& sketch_valid(*self, services)
        &&& sketch_splice_ok(*self, services, original.spec_id(), replacements)
    }

    open spec fn replace_ens(
        &self,
        original: Handle<HalfEdge>,
        replacements: Seq<Handle<HalfEdge>>,
        old_services: Services,
        new_services: Services,
        out: ReplaceOutput<Self, Self::BareObject>,
    ) -> bool {
        &&& services_extend(old_services, new_services)
        &&& inserts_at_most_regions(old_services, new_services)
        &&& !sketch_contains(*self, old_services, original.spec_id()) ==> new_services
            == old_services
        &&& out.spec_was_updated() == sketch_contains(*self, old_services, original.spec_id())
        &&& match out {
            ReplaceOutput::Original(sk) => sketch_equiv(sk, *self),
            ReplaceOutput::Updated(sk) => sketch_updated(
                *self,
                sk,
                original.spec_id(),
                replacements,
                old_services,
                new_services,
            ),
        }
    }

    fn replace_half_edge(
        &self,
        original: &Handle<HalfEdge>,
        replacements: &[Handle<HalfEdge>],
        services: &mut Services,
    ) -> (out: ReplaceOutput<Self, Self::BareObject>) {
        let ghost s0 = *services;
        let ghost id = original.spec_id();
        let ghost repl = replacements@;
        proof {
            use_type_invariant(&self.regions);
        }

        let mut replacement_happened = false;
        let mut regions: Vec<Handle<Region>> = Vec::new();
        let n = self.regions.len();
        let mut i: usize = 0;
        while i < n
            invariant
                n == self.regions@.len(),
                i <= n,
                regions@.len() == i as int,
                distinct_ids(self.regions@),
                sketch_valid(*self, s0),
                sketch_splice_ok(*self, s0, id, repl),
                id == original.spec_id(),
                repl == replacements@,
                services_extend(s0, *services),
                inserts_at_most_regions(s0, *services),
                forall|j: int| 0 <= j < i ==> region_handle_updated(
                    self.regions@[j],
                    #[trigger] regions@[j],
                    id,
                    repl,
                    s0,
                    *services,
                ),
                forall|j: int| 0 <= j < i ==> (#[trigger] regions@[j]).spec_id()
                    < services.regions@.len(),
                forall|j: int| 0 <= j < i ==> (#[trigger] regions@[j] == self.regions@[j]
                    || regions@[j].spec_id() >= s0.regions@.len()),
                distinct_ids(regions@),
                replacement_happened == exists|j: int| 0 <= j < i && region_contains(
                    s0.regions@[self.regions@[j].spec_id() as int],
                    s0,
                    id,
                ),
                !replacement_happened ==> *services == s0,
            decreases n - i,
        {
            let h: Handle<Region> = *self.regions.nth(i).unwrap();
            let ghost s_pre = *services;
            let ghost r0 = s0.regions@[h.spec_id() as int];
            proof {
                lemma_region_valid_extend(r0, s0, s_pre);
                lemma_region_splice_ok_stable(r0, id, repl, s0, s_pre);
            }
            let r_out = h.replace_half_edge(original, replacements, services);
            let ghost s_mid = *services;
            let h2: Handle<Region> = match r_out {
                ReplaceOutput::Original(hh) => hh,
                ReplaceOutput::Updated(bare) => {
                    replacement_happened = true;
                    let hb = services.regions.insert(bare);
                    proof {
                        lemma_region_updated_shrink(r0, bare, id, repl, s0, s_pre, s_mid);
                        lemma_region_updated_extend(r0, bare, id, repl, s0, s_mid, *services);
                    }
                    hb
                },
            };
            regions.push(h2);
            proof {
                lemma_region_contains_stable(r0, id, s0, s_pre);
                assert(region_handle_updated(h, h2, id, repl, s0, *services));
                assert forall|j: int| 0 <= j < i + 1 implies region_handle_updated(
                    self.regions@[j],
                    #[trigger] regions@[j],
                    id,
                    repl,
                    s0,
                    *services,
                ) by {
                    if j < i {
                        lemma_region_handle_updated_extend(
                            self.regions@[j],
                            regions@[j],
                            id,
                            repl,
                            s0,
                            s_pre,
                            *services,
                        );
                    }
                }
            }
            i += 1;
        }

        if replacement_happened {
            let regions_set = ObjectSet::new(regions);
            ReplaceOutput::Updated(Sketch::new(regions_set))
        } else {
            ReplaceOutput::Original(self.clone())
        }
    }
}

impl ReplaceHalfEdge for Handle<Sketch> {
    type BareObject = Sketch;

    open spec fn replace_req(
        &self,
        original: Handle<HalfEdge>,
        replacements: Seq<Handle<HalfEdge>>,
        services: Services,
    ) -> bool {
        &&& self.spec_id() < services.sketches@.len()
        &&& services.sketches@[self.spec_id() as int].replace_req(original, replacements, services)
    }

    open spec fn replace_ens(
        &self,
        original: Handle<HalfEdge>,
        replacements: Seq<Handle<HalfEdge>>,
        old_services: Services,
        new_services: Services,
        out: ReplaceOutput<Self, Self::BareObject>,
    ) -> bool {
        let sk0 = old_services.sketches@[self.spec_id() as int];
        &&& services_extend(old_services, new_services)
        &&& inserts_at_most_regions(old_services, new_services)
        &&& !sketch_contains(sk0, old_services, original.spec_id()) ==> new_services
            == old_services
        &&& out.spec_was_updated() == sketch_contains(sk0, old_services, original.spec_id())
        &&& match out {
            ReplaceOutput::Original(h) => h == *self,
            ReplaceOutput::Updated(sk) => sketch_updated(
                sk0,
                sk,
                original.spec_id(),
                replacements,
                old_services,
                new_services,
            ),
        }
    }

    fn replace_half_edge(
        &self,
        original: &Handle<HalfEdge>,
        replacements: &[Handle<HalfEdge>],
        services: &mut Services,
    ) -> (out: ReplaceOutput<Self, Self::BareObject>) {
        let sketch = services.sketches.get(self).clone();
        match sketch.replace_half_edge(original, replacements, services) {
            ReplaceOutput::Original(_) => ReplaceOutput::Original(*self),
            ReplaceOutput::Updated(sk) => ReplaceOutput::Updated(sk),
        }
    }
}

impl ReplaceHalfEdge for Solid {
    type BareObject = Solid;

    open spec fn replace_req(
        &self,
        original: Handle<HalfEdge>,
        replacements: Seq<Handle<HalfEdge>>,
        services: Services,
    ) -> bool {
        &&& solid_valid(*self, services)
        &&& solid_splice_ok(*self, services, original.spec_id(), replacements)
    }

    open spec fn replace_ens(
        &self,
        original: Handle<HalfEdge>,
        replacements: Seq<Handle<HalfEdge>>,
        old_services: Services,
        new_services: Services,
        out: ReplaceOutput<Self, Self::BareObject>,
    ) -> bool {
        &&& services_extend(old_services, new_services)
        &&& inserts_at_most_shells(old_services, new_services)
        &&& !solid_contains(*self, old_services, original.spec_id()) ==> new_services
            == old_services
        &&& out.spec_was_updated() == solid_contains(*self, old_services, original.spec_id())
        &&& match out {
            ReplaceOutput::Original(so) => solid_equiv(so, *self),
            ReplaceOutput::Updated(so) => solid_updated(
                *self,
                so,
                original.spec_id(),
                replacements,
                old_services,
                new_services,
            ),
        }
    }

    fn replace_half_edge(
        &self,
        original: &Handle<HalfEdge>,
        replacements: &[Handle<HalfEdge>],
        services: &mut Services,
    ) -> (out: ReplaceOutput<Self, Self::BareObject>) {
        let ghost s0 = *services;
        let ghost id = original.spec_id();
        let ghost repl = replacements@;
        proof {
            use_type_invariant(&self.shells);
        }

        let mut replacement_happened = false;
        let mut shells: Vec<Handle<Shell>> = Vec::new();
        let n = self.shells.len();
        let mut i: usize = 0;
        while i < n
            invariant
                n == self.shells@.len(),
                i <= n,
                shells@.len() == i as int,
                distinct_ids(self.shells@),
                solid_valid(*self, s0),
                solid_splice_ok(*self, s0, id, repl),
                id == original.spec_id(),
                repl == replacements@,
                services_extend(s0, *services),
                inserts_at_most_shells(s0, *services),
                forall|j: int| 0 <= j < i ==> shell_handle_updated(
                    self.shells@[j],
                    #[trigger] shells@[j],
                    id,
                    repl,
                    s0,
                    *services,
                ),
                forall|j: int| 0 <= j < i ==> (#[trigger] shells@[j]).spec_id()
                    < services.shells@.len(),
                forall|j: int| 0 <= j < i ==> (#[trigger] shells@[j] == self.shells@[j]
                    || shells@[j].spec_id() >= s0.shells@.len()),
                distinct_ids(shells@),
                replacement_happened == exists|j: int| 0 <= j < i && shell_contains(
                    s0.shells@[self.shells@[j].spec_id() as int],
                    s0,
                    id,
                ),
                !replacement_happened ==> *services == s0,
            decreases n - i,
        {
            let h: Handle<Shell> = *self.shells.nth(i).unwrap();
            let ghost s_pre = *services;
            let ghost sh0 = s0.shells@[h.spec_id() as int];
            proof {
                lemma_shell_valid_extend(sh0, s0, s_pre);
                lemma_shell_splice_ok_stable(sh0, id, repl, s0, s_pre);
            }
            let sh_out = h.replace_half_edge(original, replacements, services);
            let ghost s_mid = *services;
            let h2: Handle<Shell> = match sh_out {
                ReplaceOutput::Original(hh) => hh,
                ReplaceOutput::Updated(bare) => {
                    replacement_happened = true;
                    let hb = services.shells.insert(bare);
                    proof {
                        lemma_shell_updated_shrink(sh0, bare, id, repl, s0, s_pre, s_mid);
                        lemma_shell_updated_extend(sh0, bare, id, repl, s0, s_mid, *services);
                    }
                    hb
                },
            };
            shells.push(h2);
            proof {
                lemma_shell_contains_stable(sh0, id, s0, s_pre);
                assert(shell_handle_updated(h, h2, id, repl, s0, *services));
                assert forall|j: int| 0 <= j < i + 1 implies shell_handle_updated(
                    self.shells@[j],
                    #[trigger] shells@[j],
                    id,
                    repl,
                    s0,
                    *services,
                ) by {
                    if j < i {
                        lemma_shell_handle_updated_extend(
                            self.shells@[j],
                            shells@[j],
                            id,
                            repl,
                            s0,
                            s_pre,
                            *services,
                        );
                    }
                }
            }
            i += 1;
        }

        if replacement_happened {
            let shells_set = ObjectSet::new(shells);
            ReplaceOutput::Updated(Solid::new(shells_set))
        } else {
            ReplaceOutput::Original(self.clone())
        }
    }
}

impl ReplaceHalfEdge for Handle<Solid> {
    type BareObject = Solid;

    open spec fn replace_req(
        &self,
        original: Handle<HalfEdge>,
        replacements: Seq<Handle<HalfEdge>>,
        services: Services,
    ) -> bool {
        &&& self.spec_id() < services.solids@.len()
        &&& services.solids@[self.spec_id() as int].replace_req(original, replacements, services)
    }

    open spec fn replace_ens(
        &self,
        original: Handle<HalfEdge>,
        replacements: Seq<Handle<HalfEdge>>,
        old_services: Services,
        new_services: Services,
        out: ReplaceOutput<Self, Self::BareObject>,
    ) -> bool {
        let so0 = old_services.solids@[self.spec_id() as int];
        &&& services_extend(old_services, new_services)
        &&& inserts_at_most_shells(old_services, new_services)
        &&& !solid_contains(so0, old_services, original.spec_id()) ==> new_services == old_services
        &&& out.spec_was_updated() == solid_contains(so0, old_services, original.spec_id())
        &&& match out {
            ReplaceOutput::Original(h) => h == *self,
            ReplaceOutput::Updated(so) => solid_updated(
                so0,
                so,
                original.spec_id(),
                replacements,
                old_services,
                new_services,
            ),
        }
    }

    fn replace_half_edge(
        &self,
        original: &Handle<HalfEdge>,
        replacements: &[Handle<HalfEdge>],
        services: &mut Services,
    ) -> (out: ReplaceOutput<Self, Self::BareObject>) {
        let solid = services.solids.get(self).clone();
        match solid.replace_half_edge(original, replacements, services) {
            ReplaceOutput::Original(_) => ReplaceOutput::Original(*self),
            ReplaceOutput::Updated(so) => ReplaceOutput::Updated(so),
        }
    }
}

} // verus!
