use bif_viewport::prim_path::{
    denormalize_synthetic_instance_path, immediate_parent, normalize_instance_display_path,
    normalize_prim_path, path_is_descendant_of, resolve_instance_index,
};

#[test]
fn normalizes_synthetic_instance_paths_to_display_paths() {
    assert_eq!(normalize_instance_display_path("/BIF/cube/mesh_0/12"), "/cube/mesh_0");
}

#[test]
fn parent_selection_matches_descendant_instance_path() {
    assert!(path_is_descendant_of("/ground/mesh_0", "/ground"));
}

#[test]
fn mesh_child_selection_can_match_parent_instance_path() {
    assert_eq!(immediate_parent("/cube/mesh_0").as_deref(), Some("/cube"));
}

#[test]
fn normalization_restores_leading_slash() {
    assert_eq!(normalize_prim_path("cube/mesh_0"), "/cube/mesh_0");
}

#[test]
fn descendant_check_respects_segment_boundaries() {
    assert!(!path_is_descendant_of("/groundhog", "/ground"));
    assert!(!path_is_descendant_of("/ground", "/ground"));
}

#[test]
fn synthetic_paths_denormalize_and_others_stay() {
    assert_eq!(denormalize_synthetic_instance_path("/BIF/cube/mesh_0/12"), "cube/mesh_0");
    assert_eq!(denormalize_synthetic_instance_path("/World/cube"), "/World/cube");
}

#[test]
fn root_has_no_parent() {
    assert_eq!(immediate_parent("/cube"), None);
}

#[test]
fn instance_index_resolves_exact_path() {
    let paths = vec!["/a".to_string(), "/b/mesh_0".to_string()];
    assert_eq!(resolve_instance_index("/b/mesh_0", &paths, 2), Some(1));
    assert_eq!(resolve_instance_index("/zzz", &paths, 2), None);
}

#[test]
fn normalizing_twice_changes_nothing_unless_white_space_ends_the_path() {
    for p in ["cube/mesh_0", "  /World//", "", "/", "a b/c"] {
        let once = normalize_prim_path(p);
        assert_eq!(normalize_prim_path(&once), once);
    }
    // White space before a trailing slash survives the first pass only.
    assert_eq!(normalize_prim_path("a /"), "/a ");
    assert_eq!(normalize_prim_path("/a "), "/a");
}
