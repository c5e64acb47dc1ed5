use scenekit::ids::{GpuError, ScenixError, TextureId, ValidationError};
use scenekit::render::config::{Backends, PresentMode, RendererConfig};
use scenekit::render::indices::{pack_indices, GpuIndexFormat};
use scenekit::render::stats::{FrameStats, PipelineCacheStats, RendererDiagnostics, ResourceStats};
use scenekit::render::targets::{
    check_pixel_read, check_render_target, target_is_copy_source, texture_bytes_per_row, texture_target_byte_len,
    RenderPassKind, RenderTargetDescriptor, RenderTargetKind, RenderTargetMode,
    TargetFormat,
};
use scenekit::render::texture_store::{GpuTexture, TextureStore};
use scenekit::render::uniforms::{align_uniform_size, aligned_uniform_size, next_power_of_two, UniformBudget};
use scenekit::texture::format::TextureFormat;
use scenekit::texture::sampler::Sampler;
use scenekit::texture::texture::{Texture2D, Texture3D, TextureCube};

#[test]
fn aligned_uniform_size_rounds_to_256() {
    assert_eq!(align_uniform_size(0), 0);
    assert_eq!(align_uniform_size(1), 256);
    assert_eq!(align_uniform_size(256), 256);
    assert_eq!(align_uniform_size(257), 512);
    assert_eq!(aligned_uniform_size::<u32>(), 256);
    assert_eq!(aligned_uniform_size::<[u8; 300]>(), 512);
    assert_eq!(aligned_uniform_size::<[u8; 512]>(), 512);
}

#[test]
fn next_power_of_two_matches_std() {
    for n in [0usize, 1, 2, 3, 5, 8, 9, 1000, 1024, 1025] {
        assert_eq!(next_power_of_two(n), n.next_power_of_two());
    }
}

#[test]
fn draw_capacity_grows_to_power_of_two() {
    let mut budget = UniformBudget { object_stride: 256, material_stride: 256, draw_capacity: 4 };
    assert!(!budget.ensure_draw_capacity(3));
    assert!(!budget.ensure_draw_capacity(4));
    assert_eq!(budget.draw_capacity, 4);
    assert!(budget.ensure_draw_capacity(5));
    assert_eq!(budget.draw_capacity, 8);
    assert_eq!(budget.uniform_memory_bytes(64, 128), 256 * 8 * 2 + 192);
}

#[test]
fn bytes_per_row_for_plain_and_block_formats() {
    assert_eq!(texture_bytes_per_row(TextureFormat::Rgba8Unorm, 10), Ok(40));
    assert_eq!(texture_bytes_per_row(TextureFormat::Rgba16Float, 3), Ok(24));
    assert_eq!(texture_bytes_per_row(TextureFormat::Bc7RgbaUnorm, 10), Ok(48));
    assert_eq!(texture_bytes_per_row(TextureFormat::Astc4x4RgbaUnorm, 4), Ok(16));
    assert_eq!(texture_bytes_per_row(TextureFormat::Rgba16Float, u32::MAX), Ok(u32::MAX));
}

#[test]
fn render_target_sizes() {
    assert_eq!(texture_target_byte_len(4, 4, TargetFormat::Rgba16Float), 128);
    assert_eq!(texture_target_byte_len(4, 4, TargetFormat::Bgra8UnormSrgb), 64);
    assert_eq!(texture_target_byte_len(4, 4, TargetFormat::Other), 64);
    assert_eq!(texture_target_byte_len(0, 4, TargetFormat::Depth32Float), 0);
}

fn words16(bytes: &[u8]) -> Vec<u32> {
    bytes.chunks(2).map(|c| u16::from_ne_bytes([c[0], c[1]]) as u32).collect()
}

fn words32(bytes: &[u8]) -> Vec<u32> {
    bytes.chunks(4).map(|c| u32::from_ne_bytes([c[0], c[1], c[2], c[3]])).collect()
}

#[test]
fn pack_indices_generates_sequential_u16() {
    let p = pack_indices(3, &vec![]);
    assert_eq!(p.index_format, GpuIndexFormat::Uint16);
    assert_eq!(p.index_count, 3);
    assert_eq!(p.index_bytes.len(), 6);
    assert_eq!(words16(&p.index_bytes), vec![0, 1, 2]);
}

#[test]
fn pack_indices_keeps_given_indices() {
    let p = pack_indices(4, &vec![3, 1, 2]);
    assert_eq!(p.index_format, GpuIndexFormat::Uint16);
    assert_eq!(p.index_count, 3);
    assert_eq!(words16(&p.index_bytes), vec![3, 1, 2]);
}

#[test]
fn pack_indices_widens_when_needed() {
    let big_index = pack_indices(3, &vec![0, 70000]);
    assert_eq!(big_index.index_format, GpuIndexFormat::Uint32);
    assert_eq!(big_index.index_bytes.len(), 8);
    assert_eq!(words32(&big_index.index_bytes), vec![0, 70000]);
    let many_vertices = pack_indices(70000, &vec![0, 1, 2]);
    assert_eq!(many_vertices.index_format, GpuIndexFormat::Uint32);
    assert_eq!(words32(&many_vertices.index_bytes), vec![0, 1, 2]);
    let empty = pack_indices(0, &vec![]);
    assert_eq!(empty.index_count, 0);
    assert!(empty.index_bytes.is_empty());
}

#[test]
fn texture_store_registers_valid_textures() {
    let mut store = TextureStore::new();
    let tex = Texture2D::new(2, 2, TextureFormat::Rgba8Unorm, vec![0; 16]).unwrap();
    assert_eq!(store.register_texture2d(TextureId::new(0), &tex, Sampler::new()), Err(ValidationError::InvalidId));
    let mut broken = tex.clone();
    broken.data.pop();
    assert_eq!(store.register_texture2d(TextureId::new(1), &broken, Sampler::new()), Err(ValidationError::OutOfRange));
    assert_eq!(store.len(), 0);
    let mut no_levels = tex.clone();
    no_levels.mip_levels = 0;
    assert_eq!(store.register_texture2d(TextureId::new(1), &no_levels, Sampler::new()), Ok(()));
    assert_eq!(
        store.texture(TextureId::new(1)),
        Some(&GpuTexture {
            width: 2,
            height: 2,
            format: TextureFormat::Rgba8Unorm,
            sampler: Sampler::new(),
            mip_levels: 1
        })
    );
    let faces: [Vec<u8>; 6] = core::array::from_fn(|_| vec![0u8; 16]);
    let cube = TextureCube::new(2, TextureFormat::Rgba8Unorm, faces).unwrap();
    assert_eq!(store.register_texture_cube(TextureId::new(2), &cube, Sampler::new()), Ok(()));
    let vol = Texture3D::new(1, 1, 1, TextureFormat::Rgba8Unorm, vec![0; 4]).unwrap();
    assert_eq!(store.register_texture3d(TextureId::new(3), &vol, Sampler::new()), Ok(()));
    assert_eq!(store.len(), 3);
    assert!(store.unregister_texture(TextureId::new(2)));
    assert!(!store.unregister_texture(TextureId::new(2)));
    assert_eq!(store.texture(TextureId::new(2)), None);
    store.clear_textures();
    assert_eq!(store.len(), 0);
}

#[test]
fn stats_default_to_zero() {
    let f = FrameStats::default();
    assert_eq!(f.frame_index, 0);
    assert_eq!(f.target_mode, None);
    assert_eq!(RendererDiagnostics::default().texture_memory_bytes, 0);
    assert_eq!(ResourceStats::default().uniform_bytes, 0);
    assert_eq!(PipelineCacheStats::default().entries, 0);
    let with_mode = FrameStats { target_mode: Some(RenderTargetMode::Headless), ..f };
    assert_ne!(with_mode, f);
    assert_ne!(RenderTargetKind::Color2D, RenderTargetKind::Depth);
    assert_ne!(RenderPassKind::Geometry, RenderPassKind::Shadow);
}

#[test]
fn render_target_requests_are_checked() {
    let color = RenderTargetDescriptor::color(64, 32, TargetFormat::Rgba8Unorm);
    assert_eq!(color.kind, RenderTargetKind::Color2D);
    assert_eq!(color.sample_count, 1);
    assert_eq!(check_render_target(TextureId(5), color), Ok(()));
    assert_eq!(
        check_render_target(TextureId(0), color),
        Err(ScenixError::Validation(ValidationError::OutOfRange))
    );
    assert_eq!(
        check_render_target(TextureId(5), RenderTargetDescriptor::depth(0, 8)),
        Err(ScenixError::Validation(ValidationError::OutOfRange))
    );
    let mut multi = RenderTargetDescriptor::hdr(8, 8);
    assert_eq!(multi.format, TargetFormat::Rgba16Float);
    multi.sample_count = 4;
    assert_eq!(check_render_target(TextureId(5), multi), Err(ScenixError::Gpu(GpuError::Unsupported)));
    assert!(target_is_copy_source(RenderTargetKind::Hdr2D));
    assert!(!target_is_copy_source(RenderTargetKind::Depth));
}

#[test]
fn renderer_config_defaults_and_builders() {
    let config = RendererConfig::default();
    assert_eq!((config.width, config.height, config.sample_count), (1280, 720, 1));
    assert!(config.vsync && !config.hdr);
    assert_eq!(config.present_mode, PresentMode::Fifo);
    assert_eq!(config.backends, Backends::all());
    assert_eq!(config.validate(), Ok(()));
    assert_eq!(config.preferred_color_format(), TargetFormat::Bgra8UnormSrgb);

    let sized = RendererConfig::new(640, 480);
    assert_eq!((sized.width, sized.height), (640, 480));
    assert_eq!(sized.resized(10, 20).height, 20);

    let immediate = sized.vsync(false);
    assert!(!immediate.vsync);
    assert_eq!(immediate.present_mode, PresentMode::Immediate);
    assert_eq!(immediate.vsync(true).present_mode, PresentMode::Fifo);

    assert_eq!(sized.hdr(true).preferred_color_format(), TargetFormat::Rgba16Float);
}

#[test]
fn renderer_config_validation_errors() {
    assert_eq!(RendererConfig::new(0, 10).validate(), Err(ValidationError::OutOfRange));
    assert_eq!(RendererConfig::new(10, 0).validate(), Err(ValidationError::OutOfRange));
    let mut config = RendererConfig::new(10, 10);
    config.sample_count = 4;
    assert_eq!(config.validate(), Ok(()));
    config.sample_count = 2;
    assert_eq!(config.validate(), Err(ValidationError::OutOfRange));
    config.sample_count = 1;
    config.backends = Backends::from_bits(0);
    assert!(config.backends.is_empty());
    assert_eq!(config.validate(), Err(ValidationError::InvalidState));
    assert_eq!(Backends::from_bits(0xff).bits(), 0b1_1111);
}

#[test]
fn pixel_reads_stay_inside_the_target() {
    assert_eq!(check_pixel_read(4, 2, 3, 1), Ok(()));
    assert_eq!(check_pixel_read(4, 2, 4, 0), Err(ScenixError::Validation(ValidationError::OutOfRange)));
    assert_eq!(check_pixel_read(4, 2, 0, 2), Err(ScenixError::Validation(ValidationError::OutOfRange)));
    assert_eq!(check_pixel_read(0, 0, 0, 0), Err(ScenixError::Validation(ValidationError::OutOfRange)));
}
