use bif_viewport::node_graph::ops::SceneGraph;
use bif_viewport::node_graph::SceneNode;
use bif_viewport::paths::{make_absolute, make_relative, pathdiff_relative};
use bif_viewport::persistence::{
    absolutize_paths, check_project_version, project_format, relativize_paths, ProjectFormat,
    ProjectState, RecentFiles, SavePromptResult, FORMAT_VERSION, MAX_RECENT_FILES,
};

const TEST_BASE: &str = "/projects/my_scene";
const TEST_ABS_CHILD: &str = "/projects/my_scene/assets/model.usda";
const TEST_EXPECTED_REL: &str = "assets/model.usda";
const TEST_ABS_SIBLING: &str = "/projects/shared/textures/env.hdr";
const TEST_BASE_SHORT: &str = "/projects";

#[test]
fn path_relativization_round_trip() {
    let rel = make_relative(TEST_ABS_CHILD, TEST_BASE);
    assert_eq!(rel, TEST_EXPECTED_REL);
    let back = make_absolute(&rel, TEST_BASE);
    assert_eq!(back, TEST_ABS_CHILD);
}

#[test]
fn path_relativization_parent_dir() {
    let rel = make_relative(TEST_ABS_SIBLING, TEST_BASE);
    assert!(rel.contains(".."), "should have .. for parent: {}", rel);
    let back = make_absolute(&rel, TEST_BASE);
    assert!(back.contains("shared"));
}

#[test]
fn path_relativization_empty() {
    assert_eq!(make_relative("", TEST_BASE_SHORT), "");
    assert_eq!(make_absolute("", TEST_BASE_SHORT), "");
}

#[test]
fn sibling_relative_path_is_exact() {
    assert_eq!(make_relative(TEST_ABS_SIBLING, TEST_BASE), "../shared/textures/env.hdr");
    assert_eq!(
        make_absolute("../shared/textures/env.hdr", TEST_BASE),
        "/projects/my_scene/../shared/textures/env.hdr"
    );
}

#[test]
fn relative_input_without_common_root_is_kept() {
    assert_eq!(make_relative("scene.usda", "/projects"), "scene.usda");
    assert_eq!(pathdiff_relative("scene.usda", "/projects"), None);
    assert_eq!(make_absolute("/abs/scene.usda", "/projects"), "/abs/scene.usda");
}

#[test]
fn version_check_rejects_future() {
    let err = check_project_version(999).unwrap_err();
    assert_eq!(err.found, 999);
    assert_eq!(err.supported, FORMAT_VERSION);
    assert!(err.message().contains("999"));
    assert_eq!(
        err.message(),
        "Project file version 999 is newer than supported version 1. Please update BIF."
    );
    assert!(check_project_version(FORMAT_VERSION).is_ok());
    assert!(check_project_version(0).is_ok());
}

#[test]
fn project_format_follows_extension() {
    assert_eq!(project_format("/p/scene.bif"), ProjectFormat::Binary);
    assert_eq!(project_format("/p/scene.bifa"), ProjectFormat::Json);
    assert_eq!(project_format("/p/scene"), ProjectFormat::Json);
    assert_eq!(project_format("/p/.bif"), ProjectFormat::Json);
    assert_eq!(project_format("scene.BIF"), ProjectFormat::Json);
}

#[test]
fn recent_files_add_and_cap() {
    let mut recent = RecentFiles::default();
    for i in 0..10 {
        recent.add(&format!("file_{}.bif", i));
    }
    assert_eq!(recent.paths.len(), MAX_RECENT_FILES);
    assert_eq!(recent.paths[0], "file_9.bif");
}

#[test]
fn recent_files_dedup() {
    let mut recent = RecentFiles::default();
    recent.add("a.bif");
    recent.add("b.bif");
    recent.add("a.bif");
    assert_eq!(recent.paths.len(), 2);
    assert_eq!(recent.paths[0], "a.bif");
    assert_eq!(recent.paths[1], "b.bif");
}

#[test]
fn recent_files_prune_keeps_existing_in_order() {
    let mut recent = RecentFiles::new();
    recent.add("c.bif");
    recent.add("b.bif");
    recent.add("a.bif");
    recent.prune(&vec![true, false, true]);
    assert_eq!(recent.paths, vec!["a.bif".to_string(), "c.bif".to_string()]);
}

#[test]
fn project_state_window_title() {
    let mut state = ProjectState::default();
    assert_eq!(state.window_title(), "BIF - Untitled");
    state.file_path = Some("scene.bifa".to_string());
    assert_eq!(state.window_title(), "BIF - scene.bifa");
    state.mark_dirty();
    assert_eq!(state.window_title(), "BIF - scene.bifa *");
    state.mark_clean();
    assert_eq!(state.window_title(), "BIF - scene.bifa");
}

#[test]
fn window_title_uses_file_name_only() {
    let mut state = ProjectState::new();
    state.file_path = Some("/projects/shot/shot.bif".to_string());
    assert_eq!(state.window_title(), "BIF - shot.bif");
    state.file_path = Some("/".to_string());
    state.mark_dirty();
    assert_eq!(state.window_title(), "BIF - Untitled *");
}

#[test]
fn save_prompt_answers_are_distinct() {
    assert_ne!(SavePromptResult::Save, SavePromptResult::Discard);
    assert_ne!(SavePromptResult::Discard, SavePromptResult::Cancel);
}

#[test]
fn graph_paths_round_trip_through_project_dir() {
    let mut graph = SceneGraph::new();
    let read = graph.add_node(SceneNode::usd_read_with_path(
        "/projects/my_scene/assets/model.usda".to_string(),
    ));
    let render = graph.add_node(SceneNode::ivar_render());
    relativize_paths(&mut graph, TEST_BASE);
    assert_eq!(graph.nodes[0].id, read);
    assert_eq!(graph.nodes[1].id, render);
    match &graph.nodes[0].node {
        SceneNode::UsdRead { file_path, .. } => assert_eq!(file_path, "assets/model.usda"),
        _ => panic!("expected a USD read node"),
    }
    absolutize_paths(&mut graph, TEST_BASE);
    match &graph.nodes[0].node {
        SceneNode::UsdRead { file_path, .. } => {
            assert_eq!(file_path, "/projects/my_scene/assets/model.usda")
        }
        _ => panic!("expected a USD read node"),
    }
    assert!(matches!(graph.nodes[1].node, SceneNode::IvarRender { spp: 16, .. }));
}

#[test]
fn recent_files_treat_equal_paths_as_one() {
    let mut r = RecentFiles::new();
    r.add("/a/b/");
    r.add("/c.bif");
    r.add("/a//b");
    assert_eq!(r.paths, vec!["/a//b".to_string(), "/c.bif".to_string()]);
    r.add("/a/./b");
    assert_eq!(r.paths, vec!["/a/./b".to_string(), "/c.bif".to_string()]);
}

#[test]
fn round_trip_with_trailing_separator_on_base() {
    let base = "/projects/my_scene/";
    let rel = make_relative(TEST_ABS_CHILD, base);
    assert_eq!(rel, TEST_EXPECTED_REL);
    assert_eq!(make_absolute(&rel, base), TEST_ABS_CHILD);
}
