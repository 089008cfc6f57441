use bif_viewport::property::{
    attribute_rows, texture_rows, unbound_material_row, MaterialTextureSlots, PrimProperties,
    PropertyStatus, PropertyTab, TextRow,
};
use bif_viewport::scene_browser::PrimDisplayInfo;
use bif_viewport::scene_edit::{remove_and_reindex_prototype, reindex_ids, unique_primitive_name};
use bif_viewport::node_graph::GraphNodeId;
use bif_viewport::types::{
    default_grid_visible, poll_usd_load, DisplaySettings, Purpose, PurposeMode, ShadingMode,
    UsdLoadAction, UsdLoadEvent, UsdLoadProgress, UsdLoadStatus,
};

#[test]
fn test_property_tab_default() {
    assert_eq!(PropertyTab::default(), PropertyTab::Value);
}

#[test]
fn test_prim_properties_from_display_info() {
    let info = PrimDisplayInfo::new("/World/Mesh".to_string(), "Mesh".to_string(), true, true, 3);
    let props: PrimProperties<(), (), ()> = PrimProperties::from_display_info(&info);
    assert_eq!(props.path, "/World/Mesh");
    assert_eq!(props.prim_type, "Mesh");
    assert!(props.is_active);
    assert!(props.transform.is_none());
    assert_eq!(props.attributes, vec![("Children".to_string(), "3".to_string())]);
}

#[test]
fn test_prim_properties_builder() {
    let info = PrimDisplayInfo::new("/World/Mesh".to_string(), "Mesh".to_string(), true, false, 0);
    let props: PrimProperties<u8, i32, &str> = PrimProperties::from_display_info(&info)
        .with_transform(1u8)
        .with_bounds(-1, 1)
        .with_attribute("vertices", "1024");
    assert!(props.transform.is_some());
    assert!(props.bounds_min.is_some());
    assert!(props.bounds_max.is_some());
    assert!(props.attributes.iter().any(|(k, _)| k == "vertices"));
    let props = props.with_material("steel");
    assert_eq!(props.bound_material, Some("steel"));
}

#[test]
fn purpose_mode_filtering() {
    assert!(PurposeMode::Render.includes(Purpose::Default));
    assert!(PurposeMode::Render.includes(Purpose::Render));
    assert!(!PurposeMode::Render.includes(Purpose::Proxy));
    assert!(!PurposeMode::Proxy.includes(Purpose::Guide));
    assert!(PurposeMode::Guide.includes(Purpose::Guide));
    assert!(PurposeMode::All.includes(Purpose::Proxy));
    assert!(PurposeMode::All.includes(Purpose::Guide));
}

#[test]
fn shading_mode_uniform_values() {
    assert_eq!(ShadingMode::Textured.as_u32(), 0);
    assert_eq!(ShadingMode::DisplayColor.as_u32(), 1);
}

#[test]
fn display_settings_defaults() {
    let d = DisplaySettings::default();
    assert_eq!(d.purpose_mode, PurposeMode::Render);
    assert!(d.lod_enabled);
    assert!(d.grid_visible);
    assert!(default_grid_visible());
    assert_eq!(d.shading_mode, ShadingMode::Textured);
}

#[test]
fn usd_load_messages() {
    assert_eq!(UsdLoadProgress::OpeningStage.message(), "Opening USD stage...");
    assert_eq!(
        UsdLoadProgress::ExtractingMeshes { current: 3, total: 10 }.message(),
        "Extracting meshes (3/10)..."
    );
    assert_eq!(
        UsdLoadProgress::ExtractingMaterials { current: 0, total: 2 }.message(),
        "Extracting materials (0/2)..."
    );
    assert_eq!(UsdLoadProgress::Finalizing.message(), "Creating GPU buffers...");
    assert_eq!(UsdLoadStatus::Idle.message(), "");
    assert_eq!(UsdLoadStatus::Ready.message(), "Ready");
    assert_eq!(UsdLoadStatus::Error("boom".to_string()).message(), "Error: boom");
    assert_eq!(
        UsdLoadStatus::Loading(UsdLoadProgress::BuildingScene).message(),
        "Building scene..."
    );
}

#[test]
fn usd_load_polling_steps() {
    let mut status = UsdLoadStatus::Loading(UsdLoadProgress::OpeningStage);
    let a = poll_usd_load(&mut status, UsdLoadEvent::Progress(UsdLoadProgress::ExtractingLights));
    assert_eq!(a, UsdLoadAction::ReadNext);
    assert_eq!(status.message(), "Extracting lights...");
    assert_eq!(poll_usd_load(&mut status, UsdLoadEvent::Empty), UsdLoadAction::WaitForNextFrame);
    assert_eq!(status.message(), "Extracting lights...");
    assert_eq!(poll_usd_load(&mut status, UsdLoadEvent::Complete), UsdLoadAction::Finalize);
    assert_eq!(status.message(), "Creating GPU buffers...");
    assert_eq!(
        poll_usd_load(&mut status, UsdLoadEvent::FinalizeFailed("no device".to_string())),
        UsdLoadAction::CloseChannel
    );
    assert_eq!(status.message(), "Error: GPU finalize failed: no device");
    assert_eq!(poll_usd_load(&mut status, UsdLoadEvent::Disconnected), UsdLoadAction::CloseChannel);
    assert_eq!(status.message(), "Error: Load thread disconnected");
    assert_eq!(poll_usd_load(&mut status, UsdLoadEvent::FinalizeSucceeded), UsdLoadAction::CloseChannel);
    assert!(matches!(status, UsdLoadStatus::Idle));
    poll_usd_load(&mut status, UsdLoadEvent::Failed("bad file".to_string()));
    assert_eq!(status.message(), "Error: bad file");
}

#[test]
fn unique_names_count_per_base() {
    let mut counters = Vec::new();
    assert_eq!(unique_primitive_name(&mut counters, "Cube"), "Cube");
    assert_eq!(unique_primitive_name(&mut counters, "Cube"), "Cube_2");
    assert_eq!(unique_primitive_name(&mut counters, "Sphere"), "Sphere");
    assert_eq!(unique_primitive_name(&mut counters, "Cube"), "Cube_3");
}

#[test]
fn reindexing_drops_and_shifts() {
    assert_eq!(reindex_ids(&vec![0, 2, 5, 2, 1], 2), vec![0, 4, 1]);
    let mut map = vec![(GraphNodeId(1), vec![0, 1, 3]), (GraphNodeId(2), vec![1])];
    let mut results = vec![(GraphNodeId(5), vec![3, 3]), (GraphNodeId(6), vec![1, 0])];
    assert!(remove_and_reindex_prototype(&mut map, &mut results, 4, 1));
    assert_eq!(map, vec![(GraphNodeId(1), vec![0, 2]), (GraphNodeId(2), vec![])]);
    assert_eq!(results, vec![(GraphNodeId(5), vec![2, 2])]);
    assert!(!remove_and_reindex_prototype(&mut map, &mut results, 4, 4));
    assert_eq!(map, vec![(GraphNodeId(1), vec![0, 2]), (GraphNodeId(2), vec![])]);
}

fn row(r: &TextRow) -> (PropertyStatus, String, String, String) {
    (r.status, r.name.clone(), r.summary.clone(), r.detail.clone())
}

#[test]
fn texture_rows_list_set_slots_with_file_names() {
    let slots = MaterialTextureSlots {
        base_color: Some("/tex/wood/albedo.png".to_string()),
        roughness: None,
        metalness: None,
        normal: Some(r"C:\tex\normal.exr".to_string()),
        emission: None,
        opacity: Some("plain.png".to_string()),
    };
    let rows: Vec<_> = texture_rows(&slots).iter().map(row).collect();
    assert_eq!(
        rows,
        vec![
            (
                PropertyStatus::Resolved,
                "base_color_texture".to_string(),
                "albedo.png".to_string(),
                "/tex/wood/albedo.png".to_string()
            ),
            (
                PropertyStatus::Resolved,
                "normal_texture".to_string(),
                "normal.exr".to_string(),
                r"C:\tex\normal.exr".to_string()
            ),
            (
                PropertyStatus::Resolved,
                "opacity_texture".to_string(),
                "plain.png".to_string(),
                "plain.png".to_string()
            ),
        ]
    );
}

#[test]
fn unbound_and_attribute_rows() {
    assert_eq!(
        row(&unbound_material_row()),
        (
            PropertyStatus::Unresolved,
            "Resolved Material".to_string(),
            "<unbound>".to_string(),
            "No material bound to this prim.".to_string()
        )
    );
    let attrs = vec![("Children".to_string(), "3".to_string()), ("Kind".to_string(), "group".to_string())];
    let rows: Vec<_> = attribute_rows(&attrs).iter().map(row).collect();
    assert_eq!(
        rows,
        vec![
            (PropertyStatus::Info, "Children".to_string(), "3".to_string(), "3".to_string()),
            (PropertyStatus::Info, "Kind".to_string(), "group".to_string(), "group".to_string()),
        ]
    );
}
