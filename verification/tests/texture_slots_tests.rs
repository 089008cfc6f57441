use bif_viewport::texture_slots::{plan_texture_slots, TextureSource, UdimLayout, UdimMapping, UdimTile};

fn tile(col: u32, row: u32, path: &str) -> UdimTile {
    UdimTile { col, row, path: path.to_string() }
}

#[test]
fn plain_textures_take_consecutive_slots() {
    let paths = vec!["a.png".to_string(), "b.png".to_string()];
    let sources = vec![TextureSource::Single, TextureSource::Single];
    let plan = plan_texture_slots(&paths, &sources, 1, 10);
    assert_eq!(plan.index_map, vec![("a.png".to_string(), 1), ("b.png".to_string(), 2)]);
    assert_eq!(plan.expanded_paths, paths);
    assert_eq!(plan.total_slots, 2);
    assert!(plan.udim_map.is_empty());
}

#[test]
fn udim_grid_is_placed_row_major() {
    let layout = UdimLayout {
        num_cols: 2,
        num_rows: 2,
        min_col: 0,
        min_row: 0,
        tiles: vec![tile(1, 0, "t.1002.exr"), tile(0, 1, "t.1011.exr")],
    };
    let paths = vec!["x.png".to_string(), "t.<UDIM>.exr".to_string(), "y.png".to_string()];
    let sources = vec![TextureSource::Single, TextureSource::Udim(layout), TextureSource::Single];
    let plan = plan_texture_slots(&paths, &sources, 1, 10);
    assert_eq!(plan.total_slots, 6);
    assert_eq!(
        plan.index_map,
        vec![
            ("x.png".to_string(), 1),
            ("t.<UDIM>.exr".to_string(), 2),
            ("t.1002.exr".to_string(), 3),
            ("t.1011.exr".to_string(), 4),
            ("y.png".to_string(), 6),
        ]
    );
    assert_eq!(
        plan.udim_map,
        vec![(
            "t.<UDIM>.exr".to_string(),
            UdimMapping { base_index: 2, num_cols: 2, num_rows: 2, min_col: 0, min_row: 0 }
        )]
    );
    assert_eq!(
        plan.expanded_paths,
        vec!["x.png".to_string(), "t.1002.exr".to_string(), "t.1011.exr".to_string(), "y.png".to_string()]
    );
}

#[test]
fn oversized_udim_is_skipped_and_full_slots_stop_plain_textures() {
    let big = UdimLayout { num_cols: 3, num_rows: 1, min_col: 0, min_row: 0, tiles: vec![] };
    let paths = vec!["a".to_string(), "u".to_string(), "b".to_string(), "c".to_string(), "d".to_string()];
    let sources = vec![
        TextureSource::Single,
        TextureSource::Udim(big),
        TextureSource::UnresolvedUdim,
        TextureSource::Single,
        TextureSource::Single,
    ];
    let plan = plan_texture_slots(&paths, &sources, 1, 2);
    assert_eq!(plan.index_map, vec![("a".to_string(), 1), ("c".to_string(), 2)]);
    assert_eq!(plan.total_slots, 2);
    assert_eq!(plan.expanded_paths, vec!["a".to_string(), "c".to_string()]);
}
