use scenekit::ids::{MaterialId, MeshId};
use scenekit::render::sort::{order_draws, sort_opaque_front_to_back, sort_transparent_back_to_front, DrawSubmission};

fn draw(mesh: u64, render_order: u32, depth_key: u32, transparent: bool) -> DrawSubmission {
    DrawSubmission { mesh_id: MeshId(mesh), material_id: MaterialId(1), depth_key, transparent, render_order }
}

fn meshes(draws: &[DrawSubmission]) -> Vec<u64> {
    draws.iter().map(|d| d.mesh_id.0).collect()
}

#[test]
fn opaque_draws_go_front_to_back_within_render_order() {
    let mut draws = vec![draw(1, 0, 30, false), draw(2, 0, 10, false), draw(3, 1, 5, false), draw(4, 0, 20, false)];
    sort_opaque_front_to_back(&mut draws);
    assert_eq!(meshes(&draws), vec![2, 4, 1, 3]);
}

#[test]
fn transparent_draws_go_back_to_front_within_render_order() {
    let mut draws = vec![draw(1, 1, 30, true), draw(2, 0, 10, true), draw(3, 0, 50, true), draw(4, 1, 40, true)];
    sort_transparent_back_to_front(&mut draws);
    assert_eq!(meshes(&draws), vec![3, 2, 4, 1]);
}

#[test]
fn tied_draws_keep_their_order() {
    let mut draws = vec![draw(5, 2, 7, false), draw(6, 2, 7, false), draw(1, 0, 9, false), draw(7, 2, 7, false)];
    sort_opaque_front_to_back(&mut draws);
    assert_eq!(meshes(&draws), vec![1, 5, 6, 7]);
    let mut back = vec![draw(5, 0, 7, true), draw(6, 0, 7, true), draw(7, 0, 8, true)];
    sort_transparent_back_to_front(&mut back);
    assert_eq!(meshes(&back), vec![7, 5, 6]);
    let mut empty: Vec<DrawSubmission> = Vec::new();
    sort_opaque_front_to_back(&mut empty);
    assert!(empty.is_empty());
}

#[test]
fn frame_draws_are_split_then_sorted() {
    let draws = vec![
        draw(1, 0, 30, false),
        draw(2, 0, 10, true),
        draw(3, 0, 10, false),
        draw(4, 0, 40, true),
        draw(5, 0, 20, false),
    ];
    let (opaque, transparent) = order_draws(draws);
    assert_eq!(meshes(&opaque), vec![3, 5, 1]);
    assert_eq!(meshes(&transparent), vec![4, 2]);
    assert!(opaque.iter().all(|d| !d.transparent));
    assert!(transparent.iter().all(|d| d.transparent));
}
