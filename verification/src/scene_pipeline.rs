//! Flattening of the scene's prototypes and instances into the parallel
//! per-instance arrays that drawing and picking use.
//!
//! Instance transforms are carried as the caller's own type `T`: nothing here
//! reads them.

use vstd::prelude::*;

use crate::text::{decimal, push_decimal, same_text, texts};
use crate::types::{spec_includes, Purpose, PurposeMode};

verus! {

/// What the flattening reads of a prototype.
pub struct PrototypeInfo {
    /// Prototype name.
    pub name: String,
    /// Name of the prototype's material, if it has one.
    pub material: Option<String>,
}

/// What the flattening reads of an instance.
pub struct InstanceInfo<T> {
    /// Index of the instanced prototype.
    pub prototype_id: usize,
    /// Instance transform, carried as it is.
    pub transform: T,
    /// USD purpose of the instance.
    pub purpose: Purpose,
    /// USD prim path of the instance; empty when it has none.
    pub prim_path: String,
}

/// Flat per-instance arrays, all of the same length.
pub struct ExpandedInstances<T> {
    pub transforms: Vec<T>,
    pub material_ids: Vec<u32>,
    pub prototype_ids: Vec<usize>,
    pub prim_paths: Vec<String>,
    pub purposes: Vec<Purpose>,
}

/// One instance row: transform, material index, prototype, prim path, purpose.
pub type Row<T> = (T, u32, usize, Seq<char>, Purpose);

/// The material index of `name`: the index of the last entry so named.
pub open spec fn mat_lookup(map: Seq<(String, u32)>, name: Seq<char>) -> Option<u32>
    decreases map.len(),
{
    if map.len() == 0 {
        None
    } else if map.last().0@ == name {
        Some(map.last().1)
    } else {
        mat_lookup(map.drop_last(), name)
    }
}

/// The material index of prototype `pid`: its material's index when the map
/// knows it, the default index otherwise (also for an unknown prototype).
pub open spec fn proto_material(
    protos: Seq<PrototypeInfo>,
    map: Seq<(String, u32)>,
    default: u32,
    pid: int,
) -> u32 {
    if 0 <= pid < protos.len() {
        match protos[pid].material {
            Some(m) => match mat_lookup(map, m@) {
                Some(i) => i,
                None => default,
            },
            None => default,
        }
    } else {
        default
    }
}

/// The name of prototype `pid`, or `unknown`.
pub open spec fn proto_name(protos: Seq<PrototypeInfo>, pid: int) -> Seq<char> {
    if 0 <= pid < protos.len() {
        protos[pid].name@
    } else {
        "unknown"@
    }
}

/// The prim path of instance number `idx`: its own when it has one, else
/// `/BIF/<prototype name>/<idx>`.
pub open spec fn spec_resolve_prim_path(
    inst_path: Seq<char>,
    pid: int,
    protos: Seq<PrototypeInfo>,
    idx: nat,
) -> Seq<char> {
    if inst_path.len() > 0 {
        inst_path
    } else {
        "/BIF/"@ + proto_name(protos, pid) + "/"@ + decimal(idx)
    }
}

/// Rows for the first `n` prototypes that are not hidden: one instance at
/// `identity` each, of default purpose.
pub open spec fn proto_rows<T>(
    protos: Seq<PrototypeInfo>,
    hidden: Seq<usize>,
    map: Seq<(String, u32)>,
    default: u32,
    identity: T,
    n: int,
) -> Seq<Row<T>>
    decreases n,
{
    if n <= 0 {
        seq![]
    } else {
        let rest = proto_rows(protos, hidden, map, default, identity, n - 1);
        let i = n - 1;
        if hidden.contains(i as usize) {
            rest
        } else {
            rest.push(
                (
                    identity,
                    proto_material(protos, map, default, i),
                    i as usize,
                    "/BIF/"@ + protos[i].name@ + "/"@ + decimal(i as nat),
                    Purpose::Default,
                ),
            )
        }
    }
}

/// Rows for the first `n` scene instances whose prototype is not hidden.
pub open spec fn instance_rows<T>(
    protos: Seq<PrototypeInfo>,
    insts: Seq<InstanceInfo<T>>,
    hidden: Seq<usize>,
    map: Seq<(String, u32)>,
    default: u32,
    n: int,
) -> Seq<Row<T>>
    decreases n,
{
    if n <= 0 {
        seq![]
    } else {
        let rest = instance_rows(protos, insts, hidden, map, default, n - 1);
        let x = insts[n - 1];
        if hidden.contains(x.prototype_id) {
            rest
        } else {
            rest.push(
                (
                    x.transform,
                    proto_material(protos, map, default, x.prototype_id as int),
                    x.prototype_id,
                    spec_resolve_prim_path(x.prim_path@, x.prototype_id as int, protos, (n - 1) as nat),
                    x.purpose,
                ),
            )
        }
    }
}

/// Rows for the first `n` instances made by instancer nodes; they are
/// numbered after the `base` rows before them.
pub open spec fn instancer_rows<T>(
    protos: Seq<PrototypeInfo>,
    extra: Seq<InstanceInfo<T>>,
    map: Seq<(String, u32)>,
    default: u32,
    base: nat,
    n: int,
) -> Seq<Row<T>>
    decreases n,
{
    if n <= 0 {
        seq![]
    } else {
        let x = extra[n - 1];
        instancer_rows(protos, extra, map, default, base, n - 1).push(
            (
                x.transform,
                proto_material(protos, map, default, x.prototype_id as int),
                x.prototype_id,
                "/BIF/"@ + proto_name(protos, x.prototype_id as int) + "/instancer_"@ + decimal(
                    base + (n - 1) as nat,
                ),
                x.purpose,
            ),
        )
    }
}

/// All rows before the cap: the scene's instances (or, without any, one per
/// visible prototype), then the instancer instances.
pub open spec fn expanded_rows<T>(
    protos: Seq<PrototypeInfo>,
    insts: Seq<InstanceInfo<T>>,
    hidden: Seq<usize>,
    extra: Seq<InstanceInfo<T>>,
    map: Seq<(String, u32)>,
    default: u32,
    identity: T,
) -> Seq<Row<T>> {
    let first = if insts.len() == 0 {
        proto_rows(protos, hidden, map, default, identity, protos.len() as int)
    } else {
        instance_rows(protos, insts, hidden, map, default, insts.len() as int)
    };
    first + instancer_rows(protos, extra, map, default, first.len(), extra.len() as int)
}

impl<T> ExpandedInstances<T> {
    /// The rows of the arrays.
    pub open spec fn rows(&self) -> Seq<Row<T>> {
        Seq::new(
            self.transforms@.len(),
            |i: int|
                (
                    self.transforms@[i],
                    self.material_ids@[i],
                    self.prototype_ids@[i],
                    self.prim_paths@[i]@,
                    self.purposes@[i],
                ),
        )
    }

    /// Whether all arrays have the same length.
    pub open spec fn aligned(&self) -> bool {
        &&& self.material_ids@.len() == self.transforms@.len()
        &&& self.prototype_ids@.len() == self.transforms@.len()
        &&& self.prim_paths@.len() == self.transforms@.len()
        &&& self.purposes@.len() == self.transforms@.len()
    }

    fn push_row(&mut self, t: T, m: u32, p: usize, path: String, purpose: Purpose)
        requires
            old(self).aligned(),
        ensures
            final(self).aligned(),
            final(self).rows() == old(self).rows().push((t, m, p, path@, purpose)),
    {
        let ghost r0 = self.rows();
        self.transforms.push(t);
        self.material_ids.push(m);
        self.prototype_ids.push(p);
        self.prim_paths.push(path);
        self.purposes.push(purpose);
        assert(self.rows() =~= r0.push((t, m, p, path@, purpose)));
    }
}

/// The material lookup of a list of materials: each name with its position,
/// and the default index one past the last.
pub fn build_material_index_lookup(material_names: &Vec<String>) -> (r: (Vec<(String, u32)>, u32))
    requires
        material_names@.len() <= u32::MAX,
    ensures
        r.0@.len() == material_names@.len(),
        forall|i: int|
            0 <= i < r.0@.len() ==> #[trigger] r.0@[i].0@ == material_names@[i]@ && r.0@[i].1
                == i,
        r.1 == material_names@.len(),
{
    let mut map: Vec<(String, u32)> = Vec::new();
    let mut i: usize = 0;
    while i < material_names.len()
        invariant
            material_names@.len() <= u32::MAX,
            i <= material_names@.len(),
            map@.len() == i,
            forall|j: int|
                0 <= j < i ==> #[trigger] map@[j].0@ == material_names@[j]@ && map@[j].1 == j,
        decreases material_names@.len() - i,
    {
        map.push((material_names[i].clone(), i as u32));
        i = i + 1;
    }
    (map, material_names.len() as u32)
}

/// The material index of prototype `pid`.
fn material_of(
    protos: &Vec<PrototypeInfo>,
    map: &Vec<(String, u32)>,
    default: u32,
    pid: usize,
) -> (r: u32)
    ensures
        r == proto_material(protos@, map@, default, pid as int),
{
    if pid >= protos.len() {
        return default;
    }
    match &protos[pid].material {
        Some(m) => {
            let mut k = map.len();
            assert(map@.take(k as int) == map@);
            while k > 0
                invariant
                    k <= map@.len(),
                    pid < protos@.len(),
                    protos@[pid as int].material matches Some(mm) && mm@ == m@,
                    mat_lookup(map@, m@) == mat_lookup(map@.take(k as int), m@),
                decreases k,
            {
                let ghost t = map@.take(k as int);
                assert(t.last() == map@[k - 1]);
                assert(t.drop_last() == map@.take(k - 1));
                if same_text(map[k - 1].0.as_str(), m.as_str()) {
                    return map[k - 1].1;
                }
                k = k - 1;
            }
            default
        },
        None => default,
    }
}

/// Appends `/BIF/<name of prototype pid>/` to a new string.
fn bif_prefix(protos: &Vec<PrototypeInfo>, pid: usize) -> (s: String)
    ensures
        s@ == "/BIF/"@ + proto_name(protos@, pid as int) + "/"@,
{
    let mut s = String::from_str("/BIF/");
    if pid < protos.len() {
        s.append(protos[pid].name.as_str());
    } else {
        s.append("unknown");
    }
    s.append("/");
    s
}

/// The prim path of scene instance number `idx`: its own when set, else
/// `/BIF/<prototype name>/<idx>`.
pub fn resolve_prim_path<T>(inst: &InstanceInfo<T>, protos: &Vec<PrototypeInfo>, idx: usize) -> (r:
    String)
    ensures
        r@ == spec_resolve_prim_path(inst.prim_path@, inst.prototype_id as int, protos@, idx as nat),
{
    if inst.prim_path.as_str().unicode_len() > 0 {
        inst.prim_path.clone()
    } else {
        let mut s = bif_prefix(protos, inst.prototype_id);
        push_decimal(&mut s, idx as u64);
        s
    }
}

/// Whether `v` holds `x`.
fn holds(v: &Vec<usize>, x: usize) -> (b: bool)
    ensures
        b == v@.contains(x),
{
    let mut i: usize = 0;
    while i < v.len()
        invariant
            i <= v@.len(),
            forall|j: int| 0 <= j < i ==> v@[j] != x,
        decreases v@.len() - i,
    {
        if v[i] == x {
            assert(v@[i as int] == x);
            return true;
        }
        i = i + 1;
    }
    false
}

/// Flattens the scene into per-instance arrays: the scene's instances whose
/// prototype is not hidden (or, when the scene has no instances, one instance
/// at `identity` per visible prototype), then the instances that instancer
/// nodes made; each with its prototype's material index (or the default),
/// its prim path and its purpose; at most `max_instances` rows.
pub fn expand_scene_instances<T: Copy>(
    protos: &Vec<PrototypeInfo>,
    instances: &Vec<InstanceInfo<T>>,
    hidden_proto_ids: &Vec<usize>,
    instancer_instances: &Vec<InstanceInfo<T>>,
    material_index: &Vec<(String, u32)>,
    default_mat_index: u32,
    max_instances: usize,
    identity: T,
) -> (e: ExpandedInstances<T>)
    requires
        protos@.len() + instances@.len() + instancer_instances@.len() <= usize::MAX,
    ensures
        e.aligned(),
        e.rows() == ({
            let rows = expanded_rows(
                protos@,
                instances@,
                hidden_proto_ids@,
                instancer_instances@,
                material_index@,
                default_mat_index,
                identity,
            );
            if rows.len() > max_instances {
                rows.take(max_instances as int)
            } else {
                rows
            }
        }),
{
    let mut e = ExpandedInstances {
        transforms: Vec::new(),
        material_ids: Vec::new(),
        prototype_ids: Vec::new(),
        prim_paths: Vec::new(),
        purposes: Vec::new(),
    };
    assert(e.rows() =~= Seq::<Row<T>>::empty());
    let ghost first: Seq<Row<T>>;
    if instances.len() == 0 {
        let mut i: usize = 0;
        while i < protos.len()
            invariant
                i <= protos@.len(),
                e.aligned(),
                e.rows() == proto_rows(
                    protos@,
                    hidden_proto_ids@,
                    material_index@,
                    default_mat_index,
                    identity,
                    i as int,
                ),
            decreases protos@.len() - i,
        {
            if !holds(hidden_proto_ids, i) {
                let m = material_of(protos, material_index, default_mat_index, i);
                let mut path = bif_prefix(protos, i);
                push_decimal(&mut path, i as u64);
                e.push_row(identity, m, i, path, Purpose::Default);
            }
            i = i + 1;
        }
        proof {
            first = proto_rows(
                protos@,
                hidden_proto_ids@,
                material_index@,
                default_mat_index,
                identity,
                protos@.len() as int,
            );
        }
    } else {
        let mut i: usize = 0;
        while i < instances.len()
            invariant
                i <= instances@.len(),
                e.aligned(),
                e.rows() == instance_rows(
                    protos@,
                    instances@,
                    hidden_proto_ids@,
                    material_index@,
                    default_mat_index,
                    i as int,
                ),
            decreases instances@.len() - i,
        {
            let x = &instances[i];
            if !holds(hidden_proto_ids, x.prototype_id) {
                let m = material_of(protos, material_index, default_mat_index, x.prototype_id);
                let path = resolve_prim_path(x, protos, i);
                e.push_row(x.transform, m, x.prototype_id, path, x.purpose);
            }
            i = i + 1;
        }
        proof {
            first = instance_rows(
                protos@,
                instances@,
                hidden_proto_ids@,
                material_index@,
                default_mat_index,
                instances@.len() as int,
            );
        }
    }
    let scene_inst_count = e.transforms.len();
    assert(scene_inst_count == first.len());
    assert(scene_inst_count <= protos@.len() + instances@.len()) by {
        lemma_first_rows_len(
            protos@,
            instances@,
            hidden_proto_ids@,
            material_index@,
            default_mat_index,
            identity,
        );
    }
    let mut k: usize = 0;
    while k < instancer_instances.len()
        invariant
            k <= instancer_instances@.len(),
            scene_inst_count == first.len(),
            scene_inst_count + instancer_instances@.len() <= usize::MAX,
            e.aligned(),
            e.rows() == first + instancer_rows(
                protos@,
                instancer_instances@,
                material_index@,
                default_mat_index,
                first.len(),
                k as int,
            ),
        decreases instancer_instances@.len() - k,
    {
        let x = &instancer_instances[k];
        let m = material_of(protos, material_index, default_mat_index, x.prototype_id);
        let mut path = bif_prefix(protos, x.prototype_id);
        path.append("instancer_");
        push_decimal(&mut path, (scene_inst_count + k) as u64);
        proof {
            reveal_strlit("/");
            reveal_strlit("instancer_");
            reveal_strlit("/instancer_");
        }
        let ghost want = "/BIF/"@ + proto_name(protos@, x.prototype_id as int) + "/instancer_"@
            + decimal(first.len() + k as nat);
        assert(path@ =~= want);
        let ghost before = e.rows();
        let ghost row = (x.transform, m, x.prototype_id, path@, x.purpose);
        e.push_row(x.transform, m, x.prototype_id, path, x.purpose);
        proof {
            let ir = instancer_rows(
                protos@,
                instancer_instances@,
                material_index@,
                default_mat_index,
                first.len(),
                k + 1,
            );
            assert(ir == instancer_rows(
                protos@,
                instancer_instances@,
                material_index@,
                default_mat_index,
                first.len(),
                k as int,
            ).push(row));
            assert(e.rows() == first + ir);
        }
        k = k + 1;
    }
    if e.transforms.len() > max_instances {
        let ghost r0 = e.rows();
        e.transforms.truncate(max_instances);
        e.material_ids.truncate(max_instances);
        e.prototype_ids.truncate(max_instances);
        e.prim_paths.truncate(max_instances);
        e.purposes.truncate(max_instances);
        assert(e.rows() =~= r0.take(max_instances as int));
    }
    e
}

/// Whether row `r` draws scene instance `x` as it is: its transform, its
/// prototype and its own purpose.
pub open spec fn row_of_instance<T>(r: Row<T>, x: InstanceInfo<T>) -> bool {
    r.0 == x.transform && r.2 == x.prototype_id && r.4 == x.purpose
}

/// Every row of the scene's instances draws one of its instances whose
/// prototype is not hidden, with that instance's own transform, prototype and
/// purpose.
pub proof fn lemma_rows_come_from_instances<T>(
    protos: Seq<PrototypeInfo>,
    insts: Seq<InstanceInfo<T>>,
    hidden: Seq<usize>,
    map: Seq<(String, u32)>,
    default: u32,
    n: int,
    k: int,
)
    requires
        0 <= n <= insts.len(),
        0 <= k < instance_rows(protos, insts, hidden, map, default, n).len(),
    ensures
        exists|j: int|
            0 <= j < n && !hidden.contains(insts[j].prototype_id) && #[trigger] row_of_instance(
                instance_rows(protos, insts, hidden, map, default, n)[k],
                insts[j],
            ),
    decreases n,
{
    let rest = instance_rows(protos, insts, hidden, map, default, n - 1);
    let rows = instance_rows(protos, insts, hidden, map, default, n);
    if hidden.contains(insts[n - 1].prototype_id) {
        assert(rows == rest);
        lemma_rows_come_from_instances(protos, insts, hidden, map, default, n - 1, k);
        let j = choose|j: int|
            0 <= j < n - 1 && !hidden.contains(insts[j].prototype_id) && #[trigger] row_of_instance(
                rest[k],
                insts[j],
            );
        assert(row_of_instance(rows[k], insts[j]));
    } else if k < rest.len() {
        assert(rows[k] == rest[k]);
        lemma_rows_come_from_instances(protos, insts, hidden, map, default, n - 1, k);
        let j = choose|j: int|
            0 <= j < n - 1 && !hidden.contains(insts[j].prototype_id) && #[trigger] row_of_instance(
                rest[k],
                insts[j],
            );
        assert(row_of_instance(rows[k], insts[j]));
    } else {
        assert(row_of_instance(rows[k], insts[n - 1]));
    }
}

/// Every instance of the scene whose prototype is not hidden has a row among
/// the first `n` that draws it with its own transform, prototype and purpose.
pub proof fn lemma_instances_have_rows<T>(
    protos: Seq<PrototypeInfo>,
    insts: Seq<InstanceInfo<T>>,
    hidden: Seq<usize>,
    map: Seq<(String, u32)>,
    default: u32,
    n: int,
    j: int,
)
    requires
        0 <= j < n <= insts.len(),
        !hidden.contains(insts[j].prototype_id),
    ensures
        exists|k: int|
            0 <= k < instance_rows(protos, insts, hidden, map, default, n).len()
                && #[trigger] row_of_instance(
                instance_rows(protos, insts, hidden, map, default, n)[k],
                insts[j],
            ),
    decreases n,
{
    let rest = instance_rows(protos, insts, hidden, map, default, n - 1);
    let rows = instance_rows(protos, insts, hidden, map, default, n);
    if j < n - 1 {
        lemma_instances_have_rows(protos, insts, hidden, map, default, n - 1, j);
        let k = choose|k: int| 0 <= k < rest.len() && #[trigger] row_of_instance(rest[k], insts[j]);
        if hidden.contains(insts[n - 1].prototype_id) {
            assert(rows == rest);
        } else {
            assert(rows[k] == rest[k]);
        }
        assert(row_of_instance(rows[k], insts[j]));
    } else {
        assert(row_of_instance(rows[rest.len() as int], insts[j]));
    }
}

/// The instances that instancer nodes made are drawn one row each, in their
/// order, with their own transform, prototype and purpose.
pub proof fn lemma_instancer_rows_carry_instances<T>(
    protos: Seq<PrototypeInfo>,
    extra: Seq<InstanceInfo<T>>,
    map: Seq<(String, u32)>,
    default: u32,
    base: nat,
    n: int,
    k: int,
)
    requires
        0 <= k < n <= extra.len(),
    ensures
        instancer_rows(protos, extra, map, default, base, n).len() == n,
        row_of_instance(instancer_rows(protos, extra, map, default, base, n)[k], extra[k]),
    decreases n,
{
    if k < n - 1 {
        lemma_instancer_rows_carry_instances(protos, extra, map, default, base, n - 1, k);
        let rest = instancer_rows(protos, extra, map, default, base, n - 1);
        assert(instancer_rows(protos, extra, map, default, base, n)[k] == rest[k]);
    } else if n > 1 {
        lemma_instancer_rows_carry_instances(protos, extra, map, default, base, n - 1, 0);
    }
}

/// Every scene instance whose prototype is not hidden is drawn, by a row that
/// carries its own transform, prototype and purpose.
pub proof fn lemma_scene_instances_keep_their_purpose<T>(
    protos: Seq<PrototypeInfo>,
    insts: Seq<InstanceInfo<T>>,
    hidden: Seq<usize>,
    extra: Seq<InstanceInfo<T>>,
    map: Seq<(String, u32)>,
    default: u32,
    identity: T,
    j: int,
)
    requires
        0 <= j < insts.len(),
        !hidden.contains(insts[j].prototype_id),
    ensures
        exists|k: int|
            0 <= k < expanded_rows(protos, insts, hidden, extra, map, default, identity).len()
                && row_of_instance(
                expanded_rows(protos, insts, hidden, extra, map, default, identity)[k],
                insts[j],
            ),
{
    lemma_instances_have_rows(protos, insts, hidden, map, default, insts.len() as int, j);
    let first = instance_rows(protos, insts, hidden, map, default, insts.len() as int);
    let all = expanded_rows(protos, insts, hidden, extra, map, default, identity);
    let k = choose|k: int| 0 <= k < first.len() && row_of_instance(first[k], insts[j]);
    assert(all[k] == first[k]);
}

/// The scene rows number at most the prototypes and instances together.
proof fn lemma_first_rows_len<T>(
    protos: Seq<PrototypeInfo>,
    insts: Seq<InstanceInfo<T>>,
    hidden: Seq<usize>,
    map: Seq<(String, u32)>,
    default: u32,
    identity: T,
)
    ensures
        proto_rows(protos, hidden, map, default, identity, protos.len() as int).len()
            <= protos.len(),
        instance_rows(protos, insts, hidden, map, default, insts.len() as int).len()
            <= insts.len(),
{
    lemma_proto_rows_len(protos, hidden, map, default, identity, protos.len() as int);
    lemma_instance_rows_len(protos, insts, hidden, map, default, insts.len() as int);
}

proof fn lemma_proto_rows_len<T>(
    protos: Seq<PrototypeInfo>,
    hidden: Seq<usize>,
    map: Seq<(String, u32)>,
    default: u32,
    identity: T,
    n: int,
)
    requires
        n >= 0,
    ensures
        proto_rows(protos, hidden, map, default, identity, n).len() <= n,
    decreases n,
{
    if n > 0 {
        lemma_proto_rows_len(protos, hidden, map, default, identity, n - 1);
    }
}

proof fn lemma_instance_rows_len<T>(
    protos: Seq<PrototypeInfo>,
    insts: Seq<InstanceInfo<T>>,
    hidden: Seq<usize>,
    map: Seq<(String, u32)>,
    default: u32,
    n: int,
)
    requires
        n >= 0,
    ensures
        instance_rows(protos, insts, hidden, map, default, n).len() <= n,
    decreases n,
{
    if n > 0 {
        lemma_instance_rows_len(protos, insts, hidden, map, default, n - 1);
    }
}

/// A mesh of the combined scene the CPU renderer is handed: the prototype,
/// its transform, its position in the combined mesh list and its material.
pub struct BakeEntry<T> {
    pub prototype_id: usize,
    pub transform: T,
    pub mesh_index: usize,
    pub material: u32,
}

/// The view of a list of bake entries.
pub open spec fn bake_views<T>(v: Seq<BakeEntry<T>>) -> Seq<(usize, T, usize, u32)> {
    Seq::new(v.len(), |i: int| (v[i].prototype_id, v[i].transform, v[i].mesh_index, v[i].material))
}

/// Whether a scene instance goes into the combined scene: its prototype
/// exists and is not hidden, its prim path (when it has one) is not hidden,
/// and the purpose mode shows its purpose.
pub open spec fn instance_baked<T>(
    x: InstanceInfo<T>,
    proto_count: nat,
    hidden: Seq<usize>,
    hidden_paths: Seq<Seq<char>>,
    mode: PurposeMode,
) -> bool {
    &&& x.prototype_id < proto_count
    &&& !hidden.contains(x.prototype_id)
    &&& x.prim_path@.len() == 0 || !hidden_paths.contains(x.prim_path@)
    &&& spec_includes(mode, x.purpose)
}

/// The combined-scene entries of the first `n` scene instances, each at its
/// own position in the instance list.
pub open spec fn scene_bake<T>(
    protos: Seq<PrototypeInfo>,
    insts: Seq<InstanceInfo<T>>,
    hidden: Seq<usize>,
    hidden_paths: Seq<Seq<char>>,
    mode: PurposeMode,
    map: Seq<(String, u32)>,
    default: u32,
    n: int,
) -> Seq<(usize, T, usize, u32)>
    decreases n,
{
    if n <= 0 {
        seq![]
    } else {
        let prev = scene_bake(protos, insts, hidden, hidden_paths, mode, map, default, n - 1);
        let x = insts[n - 1];
        if instance_baked(x, protos.len(), hidden, hidden_paths, mode) {
            prev.push(
                (
                    x.prototype_id,
                    x.transform,
                    (n - 1) as usize,
                    proto_material(protos, map, default, x.prototype_id as int),
                ),
            )
        } else {
            prev
        }
    }
}

/// How many of the first `n` instancer instances the purpose mode shows.
pub open spec fn shown_count<T>(extra: Seq<InstanceInfo<T>>, mode: PurposeMode, n: int) -> nat
    decreases n,
{
    if n <= 0 {
        0
    } else {
        shown_count(extra, mode, n - 1) + if spec_includes(mode, extra[n - 1].purpose) {
            1nat
        } else {
            0nat
        }
    }
}

/// The combined-scene entries of the first `n` instancer instances: those
/// whose purpose is shown and whose prototype exists, numbered from `base`
/// by their place among the shown ones.
pub open spec fn instancer_bake<T>(
    protos: Seq<PrototypeInfo>,
    extra: Seq<InstanceInfo<T>>,
    mode: PurposeMode,
    map: Seq<(String, u32)>,
    default: u32,
    base: nat,
    n: int,
) -> Seq<(usize, T, usize, u32)>
    decreases n,
{
    if n <= 0 {
        seq![]
    } else {
        let prev = instancer_bake(protos, extra, mode, map, default, base, n - 1);
        let x = extra[n - 1];
        if spec_includes(mode, x.purpose) && x.prototype_id < protos.len() {
            prev.push(
                (
                    x.prototype_id,
                    x.transform,
                    (base + shown_count(extra, mode, n - 1)) as usize,
                    proto_material(protos, map, default, x.prototype_id as int),
                ),
            )
        } else {
            prev
        }
    }
}

fn text_listed(v: &Vec<String>, s: &String) -> (b: bool)
    ensures
        b == texts(v@).contains(s@),
{
    let mut i: usize = 0;
    while i < v.len()
        invariant
            i <= v@.len(),
            forall|j: int| 0 <= j < i ==> v@[j]@ != s@,
        decreases v@.len() - i,
    {
        if same_text(v[i].as_str(), s.as_str()) {
            assert(texts(v@)[i as int] == s@);
            return true;
        }
        i = i + 1;
    }
    assert(!texts(v@).contains(s@)) by {
        if texts(v@).contains(s@) {
            let j = choose|j: int| 0 <= j < texts(v@).len() && texts(v@)[j] == s@;
            assert(v@[j]@ == s@);
        }
    }
    false
}

/// The meshes of the combined scene that the CPU renderer is handed when
/// the scene has several prototypes and scene instances: the scene
/// instances that are shown (prototype present and not hidden, prim path not
/// hidden, purpose shown), each at its own position; then the instances of
/// the active instancers whose purpose is shown, numbered after them in the
/// order they come. Each takes its prototype's material.
pub fn bake_instances<T: Copy>(
    protos: &Vec<PrototypeInfo>,
    instances: &Vec<InstanceInfo<T>>,
    hidden_proto_ids: &Vec<usize>,
    hidden_prim_paths: &Vec<String>,
    purpose_mode: PurposeMode,
    instancer_instances: &Vec<InstanceInfo<T>>,
    material_index: &Vec<(String, u32)>,
    default_mat_index: u32,
) -> (r: Vec<BakeEntry<T>>)
    requires
        instances@.len() + instancer_instances@.len() <= usize::MAX,
    ensures
        ({
            let first = scene_bake(
                protos@,
                instances@,
                hidden_proto_ids@,
                texts(hidden_prim_paths@),
                purpose_mode,
                material_index@,
                default_mat_index,
                instances@.len() as int,
            );
            bake_views(r@) == first + instancer_bake(
                protos@,
                instancer_instances@,
                purpose_mode,
                material_index@,
                default_mat_index,
                first.len(),
                instancer_instances@.len() as int,
            )
        }),
{
    let mut r: Vec<BakeEntry<T>> = Vec::new();
    let mut k: usize = 0;
    while k < instances.len()
        invariant
            k <= instances@.len(),
            r@.len() <= k,
            bake_views(r@) == scene_bake(
                protos@,
                instances@,
                hidden_proto_ids@,
                texts(hidden_prim_paths@),
                purpose_mode,
                material_index@,
                default_mat_index,
                k as int,
            ),
        decreases instances@.len() - k,
    {
        let x = &instances[k];
        let shown = x.prototype_id < protos.len() && !holds(hidden_proto_ids, x.prototype_id) && (
        x.prim_path.unicode_len() == 0 || !text_listed(hidden_prim_paths, &x.prim_path))
            && purpose_mode.includes(x.purpose);
        if shown {
            let m = material_of(protos, material_index, default_mat_index, x.prototype_id);
            let ghost before = r@;
            r.push(BakeEntry { prototype_id: x.prototype_id, transform: x.transform, mesh_index: k, material: m });
            assert(bake_views(r@) =~= bake_views(before).push((x.prototype_id, x.transform, k, m)));
        }
        k = k + 1;
    }
    let base = r.len();
    let ghost first = bake_views(r@);
    let mut shown_so_far: usize = 0;
    let mut j: usize = 0;
    assert(first + seq![] =~= first);
    while j < instancer_instances.len()
        invariant
            j <= instancer_instances@.len(),
            base == first.len(),
            base <= instances@.len(),
            instances@.len() + instancer_instances@.len() <= usize::MAX,
            shown_so_far == shown_count(instancer_instances@, purpose_mode, j as int),
            shown_so_far <= j,
            bake_views(r@) == first + instancer_bake(
                protos@,
                instancer_instances@,
                purpose_mode,
                material_index@,
                default_mat_index,
                base as nat,
                j as int,
            ),
        decreases instancer_instances@.len() - j,
    {
        let x = &instancer_instances[j];
        if purpose_mode.includes(x.purpose) {
            if x.prototype_id < protos.len() {
                let m = material_of(protos, material_index, default_mat_index, x.prototype_id);
                let idx = base + shown_so_far;
                let ghost before = r@;
                r.push(
                    BakeEntry { prototype_id: x.prototype_id, transform: x.transform, mesh_index: idx, material: m },
                );
                assert(bake_views(r@) =~= bake_views(before).push((x.prototype_id, x.transform, idx, m)));
            }
            shown_so_far = shown_so_far + 1;
        }
        j = j + 1;
    }
    r
}

} // verus!
