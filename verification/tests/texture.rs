use scenekit::ids::ValidationError;
use scenekit::texture::atlas::{AtlasRect, TextureAtlas};
use scenekit::texture::format::{shr_clamped, TextureFormat};
use scenekit::texture::mipmap::generate;
use scenekit::texture::sampler::{AddressMode, CompareFunction, FilterMode, Sampler};
use scenekit::texture::texture::{mip_dimension, Texture2D, Texture3D, TextureCube};
use scenekit::texture::video::VideoTexture;

#[test]
fn format_properties() {
    assert!(TextureFormat::Bc7RgbaUnorm.is_compressed());
    assert!(!TextureFormat::Rgba8Unorm.is_compressed());
    assert_eq!(TextureFormat::Rgba16Float.bytes_per_pixel(), Some(8));
    assert_eq!(TextureFormat::Depth32Float.bytes_per_pixel(), Some(4));
    assert_eq!(TextureFormat::Astc4x4RgbaUnorm.bytes_per_pixel(), None);
    assert_eq!(TextureFormat::Etc2Rgba8Unorm.block_dimensions(), Some((4, 4)));
    assert_eq!(TextureFormat::Rgba8Unorm.block_dimensions(), None);
    assert_eq!(TextureFormat::Bc7RgbaUnorm.bytes_per_block(), Some(16));
    assert_eq!(TextureFormat::Rgba8UnormSrgb.bytes_per_block(), None);
}

#[test]
fn expected_lengths() {
    assert_eq!(TextureFormat::Rgba8Unorm.expected_2d_len(4, 4), Ok(64));
    assert_eq!(TextureFormat::Bc7RgbaUnorm.expected_2d_len(5, 5), Ok(64));
    assert_eq!(TextureFormat::Rgba16Float.expected_2d_len(2, 2), Ok(32));
    assert_eq!(TextureFormat::Rgba8Unorm.expected_2d_len(0, 1), Err(ValidationError::OutOfRange));
    assert_eq!(TextureFormat::Rgba8Unorm.expected_3d_len(2, 2, 2), Ok(32));
    assert_eq!(TextureFormat::Rgba8Unorm.expected_3d_len(2, 2, 0), Err(ValidationError::OutOfRange));
}

#[test]
fn mip_dimensions_halve_and_clamp() {
    assert_eq!(TextureFormat::mip_dimensions(8, 2, 2), (2, 1));
    assert_eq!(TextureFormat::mip_dimensions(8, 8, 0), (8, 8));
    assert_eq!(mip_dimension(5, 40), 1);
    assert_eq!(mip_dimension(5, 1), 2);
    assert_eq!(shr_clamped(8, 40), 0);
    assert_eq!(shr_clamped(8, 3), 1);
}

#[test]
fn texture2d_validates_length() {
    assert!(Texture2D::new(2, 2, TextureFormat::Rgba8Unorm, vec![0; 16]).is_ok());
    assert_eq!(
        Texture2D::new(2, 2, TextureFormat::Rgba8Unorm, vec![0; 15]),
        Err(ValidationError::OutOfRange)
    );
    assert_eq!(Texture2D::new(0, 2, TextureFormat::Rgba8Unorm, vec![]), Err(ValidationError::OutOfRange));
}

#[test]
fn texture2d_mip_ranges() {
    let t = Texture2D::with_mip_levels(4, 4, TextureFormat::Rgba8Unorm, vec![0; 84], 3).unwrap();
    assert_eq!(t.base_level_len(), Ok(64));
    assert_eq!(t.mip_level_range(0), Ok(0..64));
    assert_eq!(t.mip_level_range(1), Ok(64..80));
    assert_eq!(t.mip_level_range(2), Ok(80..84));
    assert_eq!(t.mip_level_range(3), Err(ValidationError::OutOfRange));
    assert_eq!(
        Texture2D::with_mip_levels(4, 4, TextureFormat::Rgba8Unorm, vec![0; 85], 4),
        Err(ValidationError::OutOfRange)
    );
    let zero = Texture2D::with_mip_levels(4, 4, TextureFormat::Rgba8Unorm, vec![0; 64], 0).unwrap();
    assert_eq!(zero.mip_level_range(0), Ok(0..64));
}

#[test]
fn texture2d_from_mips_flattens() {
    let t = Texture2D::from_mips(2, 2, TextureFormat::Rgba8Unorm, vec![vec![1; 16], vec![2; 4]]).unwrap();
    assert_eq!(t.mip_levels, 2);
    assert_eq!(t.data.len(), 20);
    assert_eq!(t.data[16], 2);
    assert!(t.validate().is_ok());
    assert_eq!(Texture2D::from_mips(2, 2, TextureFormat::Rgba8Unorm, vec![]), Err(ValidationError::OutOfRange));
    assert_eq!(
        Texture2D::from_mips(2, 2, TextureFormat::Rgba8Unorm, vec![vec![1; 16], vec![2; 5]]),
        Err(ValidationError::OutOfRange)
    );
    let labeled = t.labeled("albedo");
    assert_eq!(labeled.label.as_deref(), Some("albedo"));
}

#[test]
fn cube_and_volume_textures() {
    let faces: [Vec<u8>; 6] = core::array::from_fn(|_| vec![0u8; 16]);
    let cube = TextureCube::new(2, TextureFormat::Rgba8Unorm, faces).unwrap();
    assert_eq!(cube.mip_level_range(0), Ok(0..16));
    assert_eq!(cube.clone().labeled("sky").label.as_deref(), Some("sky"));
    let mut bad: [Vec<u8>; 6] = core::array::from_fn(|_| vec![0u8; 16]);
    bad[3] = vec![0u8; 12];
    assert_eq!(TextureCube::new(2, TextureFormat::Rgba8Unorm, bad), Err(ValidationError::OutOfRange));
    let vol = Texture3D::with_mip_levels(2, 2, 2, TextureFormat::Rgba8Unorm, vec![0; 36], 2).unwrap();
    assert_eq!(vol.mip_level_range(1), Ok(32..36));
    assert!(Texture3D::new(2, 2, 2, TextureFormat::Rgba8Unorm, vec![0; 32]).is_ok());
    assert_eq!(
        Texture3D::new(2, 2, 2, TextureFormat::Rgba8Unorm, vec![0; 31]),
        Err(ValidationError::OutOfRange)
    );
}

#[test]
fn mipmap_box_filter() {
    let data = vec![0, 0, 0, 0, 4, 4, 4, 4, 8, 8, 8, 8, 12, 12, 12, 12];
    let levels = generate(&data, 2, 2).unwrap();
    assert_eq!(levels.len(), 2);
    assert_eq!(levels[0], data);
    assert_eq!(levels[1], vec![6, 6, 6, 6]);
    let one = generate(&[1, 2, 3, 4], 1, 1).unwrap();
    assert_eq!(one, vec![vec![1, 2, 3, 4]]);
    let wide = generate(&[10, 0, 0, 0, 20, 0, 0, 0, 90, 0, 0, 0], 3, 1).unwrap();
    assert_eq!(wide.len(), 2);
    assert_eq!(wide[1], vec![15, 0, 0, 0]);
    assert_eq!(generate(&[0; 15], 2, 2), Err(ValidationError::OutOfRange));
    assert_eq!(generate(&[], 0, 2), Err(ValidationError::OutOfRange));
}

#[test]
fn atlas_packs_shelves() {
    let mut atlas = TextureAtlas::new(8, 8);
    assert_eq!(atlas.insert("a", 4, 4), Ok(AtlasRect::new(0, 0, 4, 4)));
    assert_eq!(atlas.insert("b", 4, 4), Ok(AtlasRect::new(4, 0, 4, 4)));
    assert_eq!(atlas.insert("c", 4, 4), Ok(AtlasRect::new(0, 4, 4, 4)));
    assert_eq!(atlas.insert("a", 1, 1), Err(ValidationError::InvalidState));
    assert_eq!(atlas.insert("z", 9, 1), Err(ValidationError::OutOfRange));
    assert_eq!(atlas.insert("z", 0, 1), Err(ValidationError::OutOfRange));
    assert_eq!(atlas.insert("d", 4, 4), Ok(AtlasRect::new(4, 4, 4, 4)));
    assert_eq!(atlas.insert("e", 1, 1), Err(ValidationError::OutOfRange));
    assert_eq!(atlas.rect("b"), Some(AtlasRect::new(4, 0, 4, 4)));
    assert_eq!(atlas.rect("nope"), None);
    let names: Vec<&str> = atlas.entries().iter().map(|e| e.name.as_str()).collect();
    assert_eq!(names, vec!["a", "b", "c", "d"]);
}

#[test]
fn atlas_padding_separates_entries() {
    let mut atlas = TextureAtlas::with_padding(10, 10, 1);
    assert_eq!(atlas.insert("a", 4, 4), Ok(AtlasRect::new(0, 0, 4, 4)));
    assert_eq!(atlas.insert("b", 4, 4), Ok(AtlasRect::new(5, 0, 4, 4)));
    assert_eq!(atlas.insert("c", 4, 4), Ok(AtlasRect::new(0, 5, 4, 4)));
    assert_eq!(atlas.padding, 1);
    assert_eq!(TextureAtlas::new(0, 4).insert("x", 1, 1), Err(ValidationError::OutOfRange));
}

#[test]
fn sampler_builders() {
    let s = Sampler::new();
    assert_eq!(s, Sampler::default());
    assert_eq!(s.mag_filter, FilterMode::Linear);
    assert_eq!(s.address_u, AddressMode::ClampToEdge);
    assert_eq!(s.anisotropy(0).anisotropy, 1);
    assert_eq!(s.anisotropy(40).anisotropy, 16);
    assert_eq!(s.anisotropy(8).anisotropy, 8);
    let f = s.filters(FilterMode::Nearest, FilterMode::Linear, FilterMode::Nearest);
    assert_eq!(f.mag_filter, FilterMode::Nearest);
    assert_eq!(f.mip_filter, FilterMode::Nearest);
    let a = s.address_modes(AddressMode::Repeat, AddressMode::MirrorRepeat, AddressMode::ClampToEdge);
    assert_eq!(a.address_v, AddressMode::MirrorRepeat);
    assert_eq!(s.compare(Some(CompareFunction::Less)).compare, Some(CompareFunction::Less));
}

#[test]
fn video_texture_frames() {
    let t = Texture2D::new(1, 1, TextureFormat::Rgba8Unorm, vec![0; 4]).unwrap();
    let mut v = VideoTexture::new(t);
    assert_eq!(v.frame_index, 0);
    assert!(v.dirty);
    v.mark_clean();
    assert!(!v.dirty);
    assert_eq!(v.update_frame(&[1, 2, 3, 4]), Ok(()));
    assert_eq!(v.frame_index, 1);
    assert!(v.dirty);
    assert_eq!(v.texture.data, vec![1, 2, 3, 4]);
    v.mark_clean();
    assert_eq!(v.update_frame(&[1, 2, 3]), Err(ValidationError::OutOfRange));
    assert_eq!(v.frame_index, 1);
    assert!(!v.dirty);
}

#[test]
fn textures_with_a_zero_dimension_are_out_of_range() {
    assert_eq!(Texture2D::new(4, 0, TextureFormat::Rgba8Unorm, vec![0u8; 16]), Err(ValidationError::OutOfRange));
    assert_eq!(
        Texture2D::with_mip_levels(4, 0, TextureFormat::Rgba8Unorm, vec![0u8; 16], 1),
        Err(ValidationError::OutOfRange)
    );
    assert_eq!(
        Texture2D::from_mips(4, 0, TextureFormat::Rgba8Unorm, vec![vec![0u8; 16]]),
        Err(ValidationError::OutOfRange)
    );
    assert_eq!(Texture3D::new(1, 1, 0, TextureFormat::Rgba8Unorm, vec![0u8; 4]), Err(ValidationError::OutOfRange));
    assert_eq!(Texture3D::new(0, 1, 1, TextureFormat::Rgba8Unorm, vec![0u8; 4]), Err(ValidationError::OutOfRange));
    let faces: [Vec<u8>; 6] = core::array::from_fn(|_| Vec::new());
    assert_eq!(TextureCube::new(0, TextureFormat::Rgba8Unorm, faces), Err(ValidationError::OutOfRange));
    assert!(Texture2D::new(4, 1, TextureFormat::Rgba8Unorm, vec![0u8; 16]).is_ok());
}

#[test]
fn atlas_insert_keeps_an_entry_whose_cursor_advance_overflows() {
    let mut atlas = TextureAtlas::with_padding(8, 8, u32::MAX - 2);
    assert_eq!(atlas.insert("a", 4, 4), Err(ValidationError::OutOfRange));
    assert_eq!(atlas.entries().len(), 1);
    assert_eq!(atlas.rect("a"), Some(AtlasRect::new(0, 0, 4, 4)));
    let mut small = TextureAtlas::new(4, 4);
    assert_eq!(small.insert("a", 4, 4), Ok(AtlasRect::new(0, 0, 4, 4)));
    assert_eq!(small.insert("b", 1, 1), Err(ValidationError::OutOfRange));
    assert_eq!(small.entries().len(), 1);
}

#[test]
fn atlas_shelf_overflow_returns_the_cursor_to_the_left_edge() {
    let mut atlas = TextureAtlas::with_padding(4, 4, u32::MAX - 3);
    assert_eq!(atlas.insert("a", 1, 4), Ok(AtlasRect::new(0, 0, 1, 4)));
    assert_eq!(atlas.insert("b", 1, 1), Err(ValidationError::OutOfRange));
    assert_eq!(atlas.entries().len(), 1);
    assert_eq!(atlas.insert("c", 1, 1), Ok(AtlasRect::new(0, 0, 1, 1)));
}
