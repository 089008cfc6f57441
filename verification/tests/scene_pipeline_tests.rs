use bif_viewport::scene_pipeline::{
    bake_instances, build_material_index_lookup, expand_scene_instances, resolve_prim_path,
    InstanceInfo, PrototypeInfo,
};
use bif_viewport::types::{Purpose, PurposeMode};

type Translation = [f32; 3];
const IDENTITY: Translation = [0.0, 0.0, 0.0];

fn protos(n: usize) -> Vec<PrototypeInfo> {
    (0..n).map(|i| PrototypeInfo { name: format!("proto_{}", i), material: None }).collect()
}

fn inst(pid: usize, t: Translation) -> InstanceInfo<Translation> {
    InstanceInfo { prototype_id: pid, transform: t, purpose: Purpose::Default, prim_path: String::new() }
}

#[test]
fn test_resolve_prim_path_with_path() {
    let p = vec![PrototypeInfo { name: "cube".to_string(), material: None }];
    let mut i = inst(0, IDENTITY);
    i.prim_path = "/World/my_cube".to_string();
    assert_eq!(resolve_prim_path(&i, &p, 0), "/World/my_cube");
}

#[test]
fn test_resolve_prim_path_synthesized() {
    let p = vec![PrototypeInfo { name: "sphere".to_string(), material: None }];
    let i = inst(0, IDENTITY);
    assert_eq!(resolve_prim_path(&i, &p, 42), "/BIF/sphere/42");
}

#[test]
fn test_build_material_lookup_empty() {
    let (map, default) = build_material_index_lookup(&Vec::new());
    assert!(map.is_empty());
    assert_eq!(default, 0);
}

#[test]
fn test_build_material_lookup_with_materials() {
    let names = vec!["wood".to_string(), "metal".to_string(), "glass".to_string()];
    let (map, default) = build_material_index_lookup(&names);
    assert_eq!(map.len(), 3);
    assert_eq!(map[0], ("wood".to_string(), 0));
    assert_eq!(map[1], ("metal".to_string(), 1));
    assert_eq!(map[2], ("glass".to_string(), 2));
    assert_eq!(default, 3);
}

#[test]
fn test_expand_instances_single_proto() {
    let p = protos(1);
    let insts = vec![inst(0, [0.0, 0.0, 0.0]), inst(0, [1.0, 0.0, 0.0]), inst(0, [2.0, 0.0, 0.0])];
    let (map, default_mat) = build_material_index_lookup(&Vec::new());
    let r = expand_scene_instances(&p, &insts, &Vec::new(), &Vec::new(), &map, default_mat, 1_000_000, IDENTITY);
    assert_eq!(r.transforms.len(), 3);
    assert_eq!(r.prototype_ids, vec![0, 0, 0]);
    assert_eq!(r.material_ids, vec![default_mat; 3]);
    assert_eq!(r.prim_paths.len(), 3);
    assert_eq!(r.prim_paths[2], "/BIF/proto_0/2");
}

#[test]
fn test_expand_instances_hidden_proto() {
    let p = protos(2);
    let insts = vec![inst(0, [0.0; 3]), inst(1, [1.0, 0.0, 0.0]), inst(0, [0.0, 1.0, 0.0])];
    let (map, default_mat) = build_material_index_lookup(&Vec::new());
    let r = expand_scene_instances(&p, &insts, &vec![1], &Vec::new(), &map, default_mat, 1_000_000, IDENTITY);
    assert_eq!(r.transforms.len(), 2);
    assert!(r.prototype_ids.iter().all(|&id| id == 0));
    assert_eq!(r.prim_paths, vec!["/BIF/proto_0/0".to_string(), "/BIF/proto_0/2".to_string()]);
}

#[test]
fn test_expand_instances_max_cap() {
    let p = protos(1);
    let insts: Vec<_> = (0..5).map(|i| inst(0, [i as f32, 0.0, 0.0])).collect();
    let (map, default_mat) = build_material_index_lookup(&Vec::new());
    let r = expand_scene_instances(&p, &insts, &Vec::new(), &Vec::new(), &map, default_mat, 3, IDENTITY);
    assert_eq!(r.transforms.len(), 3);
    assert_eq!(r.material_ids.len(), 3);
    assert_eq!(r.prototype_ids.len(), 3);
    assert_eq!(r.prim_paths.len(), 3);
    assert_eq!(r.purposes.len(), 3);
}

#[test]
fn test_expand_instances_empty_scene() {
    let p = vec![PrototypeInfo { name: "cube".to_string(), material: None }];
    let (map, default_mat) = build_material_index_lookup(&Vec::new());
    let r = expand_scene_instances(&p, &Vec::new(), &Vec::new(), &Vec::new(), &map, default_mat, 1_000_000, IDENTITY);
    assert_eq!(r.transforms.len(), 1);
    assert_eq!(r.transforms[0], IDENTITY);
    assert_eq!(r.prototype_ids, vec![0]);
    assert_eq!(r.prim_paths, vec!["/BIF/cube/0".to_string()]);
    assert_eq!(r.purposes, vec![Purpose::Default]);
}

#[test]
fn test_expand_instances_with_instancer() {
    let p = protos(1);
    let insts = vec![inst(0, [0.0; 3])];
    let extra = vec![inst(0, [5.0, 0.0, 0.0]), inst(0, [10.0, 0.0, 0.0])];
    let (map, default_mat) = build_material_index_lookup(&Vec::new());
    let r = expand_scene_instances(&p, &insts, &Vec::new(), &extra, &map, default_mat, 1_000_000, IDENTITY);
    assert_eq!(r.transforms.len(), 3);
    assert_eq!(r.prototype_ids.len(), 3);
    assert!(r.prim_paths[1].contains("instancer_"));
    assert!(r.prim_paths[2].contains("instancer_"));
    assert_eq!(r.prim_paths[1], "/BIF/proto_0/instancer_1");
    assert_eq!(r.prim_paths[2], "/BIF/proto_0/instancer_2");
    assert_eq!(r.transforms[2], [10.0, 0.0, 0.0]);
}

#[test]
fn materials_resolve_by_name_with_default_fallback() {
    let p = vec![
        PrototypeInfo { name: "a".to_string(), material: Some("metal".to_string()) },
        PrototypeInfo { name: "b".to_string(), material: Some("missing".to_string()) },
        PrototypeInfo { name: "c".to_string(), material: None },
    ];
    let (map, default_mat) =
        build_material_index_lookup(&vec!["wood".to_string(), "metal".to_string()]);
    let insts = vec![inst(0, IDENTITY), inst(1, IDENTITY), inst(2, IDENTITY), inst(7, IDENTITY)];
    let r = expand_scene_instances(&p, &insts, &Vec::new(), &Vec::new(), &map, default_mat, 10, IDENTITY);
    assert_eq!(r.material_ids, vec![1, 2, 2, 2]);
    assert_eq!(r.prim_paths[3], "/BIF/unknown/3");
}

#[test]
fn bake_keeps_shown_instances_and_numbers_instancer_ones_after() {
    let p = vec![
        PrototypeInfo { name: "a".to_string(), material: Some("m1".to_string()) },
        PrototypeInfo { name: "b".to_string(), material: None },
    ];
    let (map, default) = build_material_index_lookup(&vec!["m0".to_string(), "m1".to_string()]);
    let mut hidden_path = inst(0, [1.0, 0.0, 0.0]);
    hidden_path.prim_path = "/World/hidden".to_string();
    let mut proxy = inst(0, [2.0, 0.0, 0.0]);
    proxy.purpose = Purpose::Proxy;
    let insts = vec![
        inst(0, [0.0, 0.0, 0.0]),
        inst(1, [0.0, 1.0, 0.0]), // hidden prototype
        hidden_path,
        proxy,
        inst(7, IDENTITY), // no such prototype
        inst(0, [0.0, 0.0, 5.0]),
    ];
    let mut guide = inst(1, [3.0, 0.0, 0.0]);
    guide.purpose = Purpose::Guide;
    let extra = vec![guide, inst(9, IDENTITY), inst(1, [4.0, 0.0, 0.0])];
    let bake = bake_instances(
        &p,
        &insts,
        &vec![1],
        &vec!["/World/hidden".to_string()],
        PurposeMode::Render,
        &extra,
        &map,
        default,
    );
    let got: Vec<(usize, Translation, usize, u32)> =
        bake.iter().map(|e| (e.prototype_id, e.transform, e.mesh_index, e.material)).collect();
    assert_eq!(
        got,
        vec![
            (0, [0.0, 0.0, 0.0], 0, 1),
            (0, [0.0, 0.0, 5.0], 5, 1),
            // The missing prototype 9 still takes its number (2 + 0), so the last is 2 + 1.
            (1, [4.0, 0.0, 0.0], 3, 2),
        ]
    );
}
