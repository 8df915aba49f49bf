use rustic::atlas::{pack_rects, PackingRect};

fn rect(x: u32, y: u32, width: u32, height: u32) -> PackingRect {
    PackingRect { x, y, width, height }
}

#[test]
fn pack_no_textures() {
    assert!(pack_rects(0, 4096, 4096).is_empty());
}

#[test]
fn pack_one_texture_takes_a_quadrant() {
    assert_eq!(pack_rects(1, 4096, 4096), vec![rect(0, 0, 2048, 2048)]);
}

#[test]
fn pack_three_textures() {
    assert_eq!(
        pack_rects(3, 4096, 2048),
        vec![rect(0, 0, 2048, 1024), rect(2048, 0, 2048, 1024), rect(0, 1024, 2048, 1024)]
    );
}

#[test]
fn pack_five_textures_largest_first() {
    assert_eq!(
        pack_rects(5, 4096, 4096),
        vec![
            rect(2048, 0, 2048, 2048),
            rect(0, 2048, 2048, 2048),
            rect(2048, 2048, 2048, 2048),
            rect(0, 0, 1024, 1024),
            rect(1024, 0, 1024, 1024),
        ]
    );
}

#[test]
fn packed_rects_are_sorted_and_inside() {
    let rects = pack_rects(40, 1024, 512);
    assert_eq!(rects.len(), 40);
    for pair in rects.windows(2) {
        assert!(pair[1].width <= pair[0].width);
    }
    for r in &rects {
        assert!(r.x + r.width <= 1024 && r.y + r.height <= 512);
    }
}
