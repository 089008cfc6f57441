use bif_viewport::paths::strip_verbatim_prefix;
use bif_viewport::scene_merge::{bind_skinned_prototypes, merge_scene_ids, SceneIds, SkinBinding, SkinSource};

fn skin(name: &str, skel: Option<&str>, bind: bool) -> SkinSource {
    SkinSource {
        name: name.to_string(),
        skeleton_path: skel.map(|s| s.to_string()),
        has_bind_positions: bind,
    }
}

#[test]
fn skinned_prototypes_bind_to_last_matching_skeleton_and_mesh() {
    let protos = vec![
        skin("/Char/Body", Some("/Char/Skel"), true),
        skin("/Char/Hat", None, true),
        skin("/Char/Cape", Some("/Char/Skel"), false),
        skin("/Char/Missing", Some("/Char/Skel"), true),
        skin("/Char/Arm", Some("/Other/Skel"), true),
    ];
    let skeletons = vec![Some("/Char/Skel".to_string()), None, Some("/Char/Skel".to_string())];
    let meshes = vec![
        "/Char/Body".to_string(),
        "/Char/Arm".to_string(),
        "/Char/Body".to_string(),
    ];
    let bindings = bind_skinned_prototypes(&protos, &skeletons, &meshes);
    assert_eq!(bindings, vec![SkinBinding { proto_id: 0, mesh_idx: 2, skel_idx: 2 }]);
}

#[test]
fn merge_renumbers_loaded_identifiers() {
    let mut working = SceneIds {
        face_materials: vec![None, Some(vec![0, 1])],
        instance_protos: vec![0, 1, 1],
        camera_instances: vec![2],
        material_count: 2,
        cloud_ids: vec![0],
    };
    let loaded = SceneIds {
        face_materials: vec![Some(vec![0, 0, 1]), None],
        instance_protos: vec![1, 0],
        camera_instances: vec![1],
        material_count: 3,
        cloud_ids: vec![7, 9],
    };
    let mut next_cloud_id = 1;
    merge_scene_ids(&mut working, &loaded, &mut next_cloud_id);
    assert_eq!(working.face_materials, vec![None, Some(vec![0, 1]), Some(vec![2, 2, 3]), None]);
    assert_eq!(working.instance_protos, vec![0, 1, 1, 3, 2]);
    assert_eq!(working.camera_instances, vec![2, 4]);
    assert_eq!(working.material_count, 5);
    assert_eq!(working.cloud_ids, vec![0, 1, 2]);
    assert_eq!(next_cloud_id, 3);
}

#[test]
fn verbatim_prefixes_are_stripped() {
    assert_eq!(strip_verbatim_prefix(r"\\?\UNC\server\share\a.usda"), r"\\server\share\a.usda");
    assert_eq!(strip_verbatim_prefix(r"\\?\C:\scenes\a.usda"), r"C:\scenes\a.usda");
    assert_eq!(strip_verbatim_prefix("/home/u/a.usda"), "/home/u/a.usda");
    assert_eq!(strip_verbatim_prefix(r"\\server\share"), r"\\server\share");
}
