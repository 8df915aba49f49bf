use rustic::scene::{emissive_mask, is_image};

#[test]
fn image_extensions_are_recognised() {
    for name in ["sky.png", "a/b.jpg", "x.jpeg", "y.bmp", "z.tga", "studio.hdr", "env.exr"] {
        assert!(is_image(name));
    }
    for name in ["scene.glb", "png", "sky.PNG", "", "file.png.txt"] {
        assert!(!is_image(name));
    }
}

#[test]
fn emissive_mask_follows_materials() {
    let mask = emissive_mask(&vec![0, 2, 1, 2], &vec![false, true, true]);
    assert_eq!(mask, vec![false, true, true, true]);
    assert!(emissive_mask(&vec![], &vec![true]).is_empty());
}
