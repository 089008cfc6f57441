use bif_viewport::texture::{
    calculate_mip_count, downscale_raw_nearest, estimate_texture_bytes, gpu_texture_layout,
    is_linear_texture_path, is_udim_path, viewport_downscale_limit, GpuTextureLayout, TexelFormat,
    TextureBudget, DEFAULT_MAX_VIEWPORT_TEXTURE_SIZE, DEFAULT_VRAM_BUDGET_BYTES,
};

#[test]
fn test_is_linear_texture_path() {
    assert!(is_linear_texture_path("foo.exr"));
    assert!(is_linear_texture_path("bar.EXR"));
    assert!(is_linear_texture_path("hdr.hdr"));
    assert!(!is_linear_texture_path("diffuse.tx"));
    assert!(!is_linear_texture_path("normal.TX"));
    assert!(!is_linear_texture_path("diffuse.png"));
    assert!(!is_linear_texture_path("normal.jpg"));
    assert!(!is_linear_texture_path("noext"));
}

#[test]
fn test_downscale_raw_nearest_no_op() {
    let data = vec![255u8; 4 * 4 * 4];
    let (w, h, out) = downscale_raw_nearest(4, 4, &data, 8);
    assert_eq!(w, 4);
    assert_eq!(h, 4);
    assert_eq!(out.len(), data.len());
}

#[test]
fn test_downscale_raw_nearest_halves() {
    let mut data = vec![0u8; 4 * 4 * 4];
    for i in 0..16 {
        data[i * 4 + 3] = 255;
    }
    data[0] = 255;
    let (w, h, _) = downscale_raw_nearest(4, 4, &data, 2);
    assert_eq!(w, 2);
    assert_eq!(h, 2);
}

#[test]
fn test_calculate_mip_count() {
    assert_eq!(calculate_mip_count(1, 1), 1);
    assert_eq!(calculate_mip_count(2, 2), 2);
    assert_eq!(calculate_mip_count(4, 4), 3);
    assert_eq!(calculate_mip_count(1024, 1024), 11);
    assert_eq!(calculate_mip_count(512, 256), 10);
}

#[test]
fn test_default_viewport_texture_size() {
    assert_eq!(DEFAULT_MAX_VIEWPORT_TEXTURE_SIZE, 2048);
}

#[test]
fn test_estimate_texture_bytes_base() {
    assert_eq!(estimate_texture_bytes(1024, 1024, 1), 1024 * 1024 * 4);
}

#[test]
fn test_estimate_texture_bytes_with_mips() {
    let base = 1024u64 * 1024 * 4;
    assert_eq!(estimate_texture_bytes(1024, 1024, 11), base * 4 / 3);
}

#[test]
fn test_budget_happy_path() {
    let mut b = TextureBudget::new(64 * 1024 * 1024);
    assert!(b.try_charge(1024, 1024, 1));
    assert!(b.try_charge(1024, 1024, 1));
    assert!(b.try_charge(1024, 1024, 1));
    assert_eq!(b.used_bytes(), 3 * 1024 * 1024 * 4);
}

#[test]
fn test_budget_rejects_over_cap() {
    let mut b = TextureBudget::new(1024 * 1024 * 4 + 1);
    assert!(b.try_charge(1024, 1024, 1));
    assert!(!b.try_charge(1024, 1024, 1));
    assert_eq!(b.used_bytes(), 1024 * 1024 * 4);
}

#[test]
fn test_budget_warns_only_once() {
    let mut b = TextureBudget::new(1);
    assert!(!b.try_charge(1, 1, 1));
    assert!(b.warned());
    assert!(!b.try_charge(1, 1, 1));
    assert!(b.warned());
}

#[test]
fn test_default_vram_budget_is_one_and_a_half_gib() {
    assert_eq!(DEFAULT_VRAM_BUDGET_BYTES, 1_500 * 1024 * 1024);
}

#[test]
fn budget_used_never_exceeds_cap() {
    let mut b = TextureBudget::new(10 * 1024 * 1024);
    for _ in 0..5 {
        b.try_charge(1024, 1024, 1);
        assert!(b.used_bytes() <= b.max_bytes());
    }
    assert_eq!(b.used_bytes(), 2 * 1024 * 1024 * 4);
}

#[test]
fn default_budget_uses_default_cap() {
    let b = TextureBudget::default();
    assert_eq!(b.max_bytes(), DEFAULT_VRAM_BUDGET_BYTES);
    assert_eq!(b.used_bytes(), 0);
    assert!(!b.warned());
}

#[test]
fn mip_count_of_non_square_and_odd_sizes() {
    assert_eq!(calculate_mip_count(1, 1024), 11);
    assert_eq!(calculate_mip_count(3, 3), 2);
    assert_eq!(calculate_mip_count(1000, 10), 10);
}

#[test]
fn texture_bytes_with_two_mips() {
    assert_eq!(estimate_texture_bytes(2, 2, 2), 2 * 2 * 4 * 4 / 3);
}

#[test]
fn downscale_keeps_aspect_and_samples_nearest() {
    let mut data = Vec::new();
    for y in 0..2u8 {
        for x in 0..4u8 {
            data.extend_from_slice(&[x, y, 0, 255]);
        }
    }
    let (w, h, out) = downscale_raw_nearest(4, 2, &data, 2);
    assert_eq!((w, h), (2, 1));
    assert_eq!(out, vec![0, 0, 0, 255, 2, 0, 0, 255]);
}

#[test]
fn linear_texture_detection_is_case_insensitive() {
    assert!(is_linear_texture_path("/a/b/sky.HdR"));
    assert!(!is_linear_texture_path("/a/b.exr/file"));
}

#[test]
fn udim_token_detection() {
    assert!(is_udim_path("textures/albedo.<UDIM>.png"));
    assert!(is_udim_path("<UDIM>"));
    assert!(!is_udim_path("textures/albedo.1001.png"));
    assert!(!is_udim_path("textures/albedo.<udim>.png"));
    assert!(!is_udim_path(""));
}

#[test]
fn downscale_limit_is_the_smaller_limit() {
    assert_eq!(viewport_downscale_limit(4096, 1024, 8192, 2048), Some(2048));
    assert_eq!(viewport_downscale_limit(1024, 4096, 1024, 2048), Some(1024));
    assert_eq!(viewport_downscale_limit(2048, 2048, 8192, 2048), None);
}

#[test]
fn texture_layout_formats_and_mips() {
    // sRGB with GPU mips: created linear, sampled through an sRGB view.
    assert_eq!(
        gpu_texture_layout(1024, 512, false, true),
        GpuTextureLayout { mip_count: 11, format: TexelFormat::Rgba8Unorm, storage: true, srgb_view: true }
    );
    // sRGB without a generator: native sRGB, one level.
    assert_eq!(
        gpu_texture_layout(1024, 512, false, false),
        GpuTextureLayout { mip_count: 1, format: TexelFormat::Rgba8UnormSrgb, storage: false, srgb_view: false }
    );
    // Too small for GPU mips.
    assert_eq!(
        gpu_texture_layout(32, 512, false, true),
        GpuTextureLayout { mip_count: 1, format: TexelFormat::Rgba8UnormSrgb, storage: false, srgb_view: false }
    );
    // Linear data stays linear.
    assert_eq!(
        gpu_texture_layout(64, 64, true, true),
        GpuTextureLayout { mip_count: 7, format: TexelFormat::Rgba8Unorm, storage: true, srgb_view: false }
    );
}
