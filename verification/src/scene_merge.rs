//! What loading a USD scene into the working scene decides: which
//! prototypes are skinned against which skeleton and stage mesh, and how the
//! loaded scene's identifiers are renumbered when it joins the scene built so
//! far.

use vstd::prelude::*;

use crate::text::same_text;

verus! {

/// What skinning reads of a loaded prototype.
pub struct SkinSource {
    /// Prototype name, which is also the path of its stage mesh.
    pub name: String,
    /// Path of the skeleton its skin binds to, when it has a skin.
    pub skeleton_path: Option<String>,
    /// Whether the mesh carries bind-pose positions.
    pub has_bind_positions: bool,
}

/// A skinned prototype with the stage mesh and skeleton it deforms by.
#[derive(Clone, Copy, Debug, PartialEq, Eq, Structural)]
pub struct SkinBinding {
    pub proto_id: usize,
    pub mesh_idx: usize,
    pub skel_idx: usize,
}

/// Index of the last readable skeleton whose path is `p`.
pub open spec fn last_skeleton(skels: Seq<Option<String>>, p: Seq<char>) -> Option<usize>
    decreases skels.len(),
{
    if skels.len() == 0 {
        None
    } else if skels.last() matches Some(s) && s@ == p {
        Some((skels.len() - 1) as usize)
    } else {
        last_skeleton(skels.drop_last(), p)
    }
}

/// Index of the last stage mesh whose path is `p`.
pub open spec fn last_mesh(meshes: Seq<String>, p: Seq<char>) -> Option<usize>
    decreases meshes.len(),
{
    if meshes.len() == 0 {
        None
    } else if meshes.last()@ == p {
        Some((meshes.len() - 1) as usize)
    } else {
        last_mesh(meshes.drop_last(), p)
    }
}

/// The binding of prototype `k`: it needs a skin, bind-pose positions, a
/// skeleton at its skin's path and a stage mesh at its name.
pub open spec fn binding_of(
    src: SkinSource,
    k: usize,
    skels: Seq<Option<String>>,
    meshes: Seq<String>,
) -> Option<SkinBinding> {
    match src.skeleton_path {
        None => None,
        Some(sp) => if !src.has_bind_positions {
            None
        } else {
            match (last_skeleton(skels, sp@), last_mesh(meshes, src.name@)) {
                (Some(s), Some(m)) => Some(SkinBinding { proto_id: k, mesh_idx: m, skel_idx: s }),
                _ => None,
            }
        },
    }
}

/// The bindings of the first `n` prototypes, in prototype order.
pub open spec fn bindings_upto(
    srcs: Seq<SkinSource>,
    skels: Seq<Option<String>>,
    meshes: Seq<String>,
    n: int,
) -> Seq<SkinBinding>
    decreases n,
{
    if n <= 0 {
        seq![]
    } else {
        let prev = bindings_upto(srcs, skels, meshes, n - 1);
        match binding_of(srcs[n - 1], (n - 1) as usize, skels, meshes) {
            Some(b) => prev.push(b),
            None => prev,
        }
    }
}

fn find_skeleton(skels: &Vec<Option<String>>, p: &String) -> (r: Option<usize>)
    ensures
        r == last_skeleton(skels@, p@),
{
    let mut i = skels.len();
    assert(skels@.take(i as int) =~= skels@);
    while i > 0
        invariant
            i <= skels@.len(),
            last_skeleton(skels@, p@) == last_skeleton(skels@.take(i as int), p@),
        decreases i,
    {
        let ghost t = skels@.take(i as int);
        assert(t.drop_last() =~= skels@.take(i - 1));
        assert(t.last() == skels@[i - 1]);
        match &skels[i - 1] {
            Some(s) => {
                if same_text(s.as_str(), p.as_str()) {
                    return Some(i - 1);
                }
            },
            None => {},
        }
        i = i - 1;
    }
    None
}

fn find_mesh(meshes: &Vec<String>, p: &String) -> (r: Option<usize>)
    ensures
        r == last_mesh(meshes@, p@),
{
    let mut i = meshes.len();
    assert(meshes@.take(i as int) =~= meshes@);
    while i > 0
        invariant
            i <= meshes@.len(),
            last_mesh(meshes@, p@) == last_mesh(meshes@.take(i as int), p@),
        decreases i,
    {
        let ghost t = meshes@.take(i as int);
        assert(t.drop_last() =~= meshes@.take(i - 1));
        assert(t.last() == meshes@[i - 1]);
        if same_text(meshes[i - 1].as_str(), p.as_str()) {
            return Some(i - 1);
        }
        i = i - 1;
    }
    None
}

/// The skinned prototypes, in prototype order, each with the stage mesh and
/// skeleton it deforms by. `skeletons` lists the stage's skeletons by index
/// (`None` for one that could not be read); `mesh_paths` the stage's meshes
/// by index. A prototype without a skin or bind-pose positions, or whose
/// skeleton or mesh the stage lacks, is left out; when paths repeat, the
/// last index wins.
pub fn bind_skinned_prototypes(
    protos: &Vec<SkinSource>,
    skeletons: &Vec<Option<String>>,
    mesh_paths: &Vec<String>,
) -> (r: Vec<SkinBinding>)
    ensures
        r@ == bindings_upto(protos@, skeletons@, mesh_paths@, protos@.len() as int),
{
    let mut r: Vec<SkinBinding> = Vec::new();
    let mut k: usize = 0;
    while k < protos.len()
        invariant
            k <= protos@.len(),
            r@ == bindings_upto(protos@, skeletons@, mesh_paths@, k as int),
        decreases protos@.len() - k,
    {
        let p = &protos[k];
        match &p.skeleton_path {
            Some(sp) => {
                if p.has_bind_positions {
                    let s = find_skeleton(skeletons, sp);
                    let m = find_mesh(mesh_paths, &p.name);
                    match (s, m) {
                        (Some(s), Some(m)) => {
                            r.push(SkinBinding { proto_id: k, mesh_idx: m, skel_idx: s });
                        },
                        _ => {},
                    }
                }
            },
            None => {},
        }
        k = k + 1;
    }
    r
}

/// The identifiers a merge renumbers, with the counts it offsets by.
pub struct SceneIds {
    /// Per prototype, the material of each face when it has face materials.
    pub face_materials: Vec<Option<Vec<u32>>>,
    /// The prototype of each instance.
    pub instance_protos: Vec<usize>,
    /// The instance each camera belongs to.
    pub camera_instances: Vec<usize>,
    /// Number of materials.
    pub material_count: usize,
    /// Identifier of each point cloud.
    pub cloud_ids: Vec<usize>,
}

/// Face material indices moved up by `off`.
pub open spec fn shifted(ids: Seq<u32>, off: nat) -> Seq<int> {
    Seq::new(ids.len(), |i: int| ids[i] + off)
}

/// The view of a prototype's face materials, moved up by `off`.
pub open spec fn shifted_faces(f: Option<Vec<u32>>, off: nat) -> Option<Seq<int>> {
    match f {
        Some(v) => Some(shifted(v@, off)),
        None => None,
    }
}

/// The view of a list of face materials, each moved up by `off`.
pub open spec fn faces_view(fs: Seq<Option<Vec<u32>>>, off: nat) -> Seq<Option<Seq<int>>> {
    Seq::new(fs.len(), |i: int| shifted_faces(fs[i], off))
}

/// A list of indices as integers.
pub open spec fn ints(s: Seq<usize>) -> Seq<int> {
    Seq::new(s.len(), |i: int| s[i] as int)
}

/// `n` consecutive identifiers from `first` on.
pub open spec fn fresh_ids(first: nat, n: nat) -> Seq<int> {
    Seq::new(n, |i: int| first + i)
}

/// Indices moved up by `off`.
pub open spec fn offset_all(ids: Seq<usize>, off: nat) -> Seq<int> {
    Seq::new(ids.len(), |i: int| ids[i] + off)
}

/// Whether every face material of every prototype stays below `u32::MAX`
/// when moved up by `off`.
pub open spec fn faces_fit(fs: Seq<Option<Vec<u32>>>, off: nat) -> bool {
    forall|i: int, j: int|
        0 <= i < fs.len() && fs[i] is Some && 0 <= j < fs[i]->0@.len() ==> fs[i]->0@[j] + off
            <= u32::MAX
}

/// Whether every index stays below `usize::MAX` when moved up by `off`.
pub open spec fn ids_fit(ids: Seq<usize>, off: nat) -> bool {
    forall|i: int| 0 <= i < ids.len() ==> ids[i] + off <= usize::MAX
}

fn shift_faces(ids: &Vec<u32>, off: u32) -> (r: Vec<u32>)
    requires
        forall|j: int| 0 <= j < ids@.len() ==> ids@[j] + off <= u32::MAX,
    ensures
        Seq::new(r@.len(), |q: int| r@[q] as int) == shifted(ids@, off as nat),
{
    let mut r: Vec<u32> = Vec::new();
    let mut j: usize = 0;
    while j < ids.len()
        invariant
            j <= ids@.len(),
            forall|q: int| 0 <= q < ids@.len() ==> ids@[q] + off <= u32::MAX,
            r@.len() == j,
            forall|q: int| 0 <= q < j ==> r@[q] == ids@[q] + off,
        decreases ids@.len() - j,
    {
        r.push(ids[j] + off);
        j = j + 1;
    }
    assert(Seq::new(r@.len(), |q: int| r@[q] as int) =~= shifted(ids@, off as nat));
    r
}

/// Appends the loaded scene's identifiers to the working scene's: the loaded
/// prototypes' face materials move past the working materials, its
/// instances' prototypes past the working prototypes, its cameras' instances
/// past the working instances, and its point clouds get fresh identifiers
/// from `next_cloud_id` on.
pub fn merge_scene_ids(working: &mut SceneIds, loaded: &SceneIds, next_cloud_id: &mut usize)
    requires
        old(working).material_count <= u32::MAX,
        faces_fit(loaded.face_materials@, old(working).material_count as nat),
        ids_fit(loaded.instance_protos@, old(working).face_materials@.len()),
        ids_fit(loaded.camera_instances@, old(working).instance_protos@.len()),
        old(working).material_count + loaded.material_count <= usize::MAX,
        *old(next_cloud_id) + loaded.cloud_ids@.len() <= usize::MAX,
    ensures
        faces_view(final(working).face_materials@, 0) == faces_view(old(working).face_materials@, 0)
            + faces_view(loaded.face_materials@, old(working).material_count as nat),
        ints(final(working).instance_protos@) == ints(old(working).instance_protos@) + offset_all(
            loaded.instance_protos@,
            old(working).face_materials@.len(),
        ),
        ints(final(working).camera_instances@) == ints(old(working).camera_instances@) + offset_all(
            loaded.camera_instances@,
            old(working).instance_protos@.len(),
        ),
        final(working).material_count == old(working).material_count + loaded.material_count,
        ints(final(working).cloud_ids@) == ints(old(working).cloud_ids@) + fresh_ids(
            *old(next_cloud_id) as nat,
            loaded.cloud_ids@.len(),
        ),
        *final(next_cloud_id) == *old(next_cloud_id) + loaded.cloud_ids@.len(),
{
    let proto_offset = working.face_materials.len();
    let instance_offset = working.instance_protos.len();
    let mat_offset = working.material_count as u32;
    let ghost w0 = *working;
    let mut k: usize = 0;
    while k < loaded.face_materials.len()
        invariant
            k <= loaded.face_materials@.len(),
            mat_offset == w0.material_count,
            w0 == *old(working),
            *next_cloud_id == *old(next_cloud_id),
            working.instance_protos@ == w0.instance_protos@,
            working.camera_instances@ == w0.camera_instances@,
            working.cloud_ids@ == w0.cloud_ids@,
            working.material_count == w0.material_count,
            proto_offset == w0.face_materials@.len(),
            instance_offset == w0.instance_protos@.len(),
            faces_fit(loaded.face_materials@, mat_offset as nat),
            faces_view(working.face_materials@, 0) == faces_view(w0.face_materials@, 0) + faces_view(
                loaded.face_materials@.take(k as int),
                mat_offset as nat,
            ),
        decreases loaded.face_materials@.len() - k,
    {
        let ghost before = working.face_materials@;
        let entry = match &loaded.face_materials[k] {
            Some(ids) => {
                proof {
                    assert forall|j: int| 0 <= j < ids@.len() implies ids@[j] + mat_offset <= u32::MAX by {
                        assert(loaded.face_materials@[k as int] is Some);
                    }
                }
                Some(shift_faces(ids, mat_offset))
            },
            None => None,
        };
        working.face_materials.push(entry);
        proof {
            assert(shifted_faces(entry, 0) == shifted_faces(loaded.face_materials@[k as int], mat_offset as nat)) by {
                if entry is Some {
                    let v = entry->0@;
                    assert(shifted(v, 0) =~= Seq::new(v.len(), |q: int| v[q] as int));
                }
            }
            assert(faces_view(working.face_materials@, 0) =~= faces_view(before, 0).push(
                shifted_faces(entry, 0),
            ));
            assert(faces_view(loaded.face_materials@.take(k + 1), mat_offset as nat) =~= faces_view(
                loaded.face_materials@.take(k as int),
                mat_offset as nat,
            ).push(shifted_faces(loaded.face_materials@[k as int], mat_offset as nat)));
        }
        k = k + 1;
    }
    assert(loaded.face_materials@.take(loaded.face_materials@.len() as int) =~= loaded.face_materials@);
    let mut k: usize = 0;
    let ghost i0 = ints(working.instance_protos@);
    while k < loaded.instance_protos.len()
        invariant
            k <= loaded.instance_protos@.len(),
            proto_offset == w0.face_materials@.len(),
            instance_offset == w0.instance_protos@.len(),
            w0 == *old(working),
            *next_cloud_id == *old(next_cloud_id),
            i0 == ints(w0.instance_protos@),
            faces_view(working.face_materials@, 0) == faces_view(w0.face_materials@, 0) + faces_view(
                loaded.face_materials@,
                w0.material_count as nat,
            ),
            working.camera_instances@ == w0.camera_instances@,
            working.cloud_ids@ == w0.cloud_ids@,
            working.material_count == w0.material_count,
            ids_fit(loaded.instance_protos@, proto_offset as nat),
            ints(working.instance_protos@) == i0 + offset_all(
                loaded.instance_protos@.take(k as int),
                proto_offset as nat,
            ),
        decreases loaded.instance_protos@.len() - k,
    {
        let ghost before = working.instance_protos@;
        let x = loaded.instance_protos[k] + proto_offset;
        working.instance_protos.push(x);
        assert(ints(working.instance_protos@) =~= ints(before).push(x as int));
        assert(offset_all(loaded.instance_protos@.take(k + 1), proto_offset as nat) =~= offset_all(
            loaded.instance_protos@.take(k as int),
            proto_offset as nat,
        ).push(x as int));
        assert(ints(working.instance_protos@) =~= i0 + offset_all(
            loaded.instance_protos@.take(k + 1),
            proto_offset as nat,
        ));
        k = k + 1;
    }
    assert(loaded.instance_protos@.take(loaded.instance_protos@.len() as int) =~= loaded.instance_protos@);
    working.material_count = working.material_count + loaded.material_count;
    let mut k: usize = 0;
    let ghost c0 = ints(working.cloud_ids@);
    let ghost n0 = *next_cloud_id;
    while k < loaded.cloud_ids.len()
        invariant
            k <= loaded.cloud_ids@.len(),
            n0 + loaded.cloud_ids@.len() <= usize::MAX,
            n0 == *old(next_cloud_id),
            instance_offset == w0.instance_protos@.len(),
            w0 == *old(working),
            c0 == ints(w0.cloud_ids@),
            faces_view(working.face_materials@, 0) == faces_view(w0.face_materials@, 0) + faces_view(
                loaded.face_materials@,
                w0.material_count as nat,
            ),
            ints(working.instance_protos@) == ints(w0.instance_protos@) + offset_all(
                loaded.instance_protos@,
                w0.face_materials@.len(),
            ),
            working.camera_instances@ == w0.camera_instances@,
            working.material_count == w0.material_count + loaded.material_count,
            *next_cloud_id == n0 + k,
            ints(working.cloud_ids@) == c0 + fresh_ids(n0 as nat, k as nat),
        decreases loaded.cloud_ids@.len() - k,
    {
        let ghost before = working.cloud_ids@;
        let id = *next_cloud_id;
        working.cloud_ids.push(id);
        *next_cloud_id = id + 1;
        assert(ints(working.cloud_ids@) =~= ints(before).push(id as int));
        assert(fresh_ids(n0 as nat, (k + 1) as nat) =~= fresh_ids(n0 as nat, k as nat).push(id as int));
        assert(ints(working.cloud_ids@) =~= c0 + fresh_ids(n0 as nat, (k + 1) as nat));
        k = k + 1;
    }
    let mut k: usize = 0;
    let ghost m0 = ints(working.camera_instances@);
    while k < loaded.camera_instances.len()
        invariant
            k <= loaded.camera_instances@.len(),
            instance_offset == w0.instance_protos@.len(),
            w0 == *old(working),
            m0 == ints(w0.camera_instances@),
            *next_cloud_id == *old(next_cloud_id) + loaded.cloud_ids@.len(),
            faces_view(working.face_materials@, 0) == faces_view(w0.face_materials@, 0) + faces_view(
                loaded.face_materials@,
                w0.material_count as nat,
            ),
            ints(working.instance_protos@) == ints(w0.instance_protos@) + offset_all(
                loaded.instance_protos@,
                w0.face_materials@.len(),
            ),
            ints(working.cloud_ids@) == ints(w0.cloud_ids@) + fresh_ids(
                *old(next_cloud_id) as nat,
                loaded.cloud_ids@.len(),
            ),
            working.material_count == w0.material_count + loaded.material_count,
            ids_fit(loaded.camera_instances@, instance_offset as nat),
            ints(working.camera_instances@) == m0 + offset_all(
                loaded.camera_instances@.take(k as int),
                instance_offset as nat,
            ),
        decreases loaded.camera_instances@.len() - k,
    {
        let ghost before = working.camera_instances@;
        let x = loaded.camera_instances[k] + instance_offset;
        working.camera_instances.push(x);
        assert(ints(working.camera_instances@) =~= ints(before).push(x as int));
        assert(offset_all(loaded.camera_instances@.take(k + 1), instance_offset as nat) =~= offset_all(
            loaded.camera_instances@.take(k as int),
            instance_offset as nat,
        ).push(x as int));
        assert(ints(working.camera_instances@) =~= m0 + offset_all(
            loaded.camera_instances@.take(k + 1),
            instance_offset as nat,
        ));
        k = k + 1;
    }
    assert(loaded.camera_instances@.take(loaded.camera_instances@.len() as int) =~= loaded.camera_instances@);
}

} // verus!
