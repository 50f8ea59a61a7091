use rust_kpc::texture::{apply_chromakey, create_colored_texture, fallback_color, needs_chromakey};
use rust_kpc::texture_names::{add_dtx_suffix, texture_file_name, texture_name_variations};

#[test]
fn colored_texture_has_opaque_pixels() {
    let t = create_colored_texture(2, 3, 10, 20, 30);
    assert_eq!(t.width, 2);
    assert_eq!(t.height, 3);
    assert_eq!(t.name, "fallback");
    assert_eq!(t.pixels.len(), 24);
    for px in t.pixels.chunks(4) {
        assert_eq!(px, &[10, 20, 30, 255]);
    }
    assert!(create_colored_texture(0, 5, 1, 2, 3).pixels.is_empty());
}

#[test]
fn chromakey_clears_alpha_of_near_black() {
    let mut px = vec![5, 5, 5, 200, 5, 5, 6, 200, 0, 0, 0, 255, 1, 2];
    apply_chromakey(&mut px);
    // 15 is still near black, 16 is not; the trailing partial pixel stays.
    assert_eq!(px, vec![5, 5, 5, 0, 5, 5, 6, 200, 0, 0, 0, 0, 1, 2]);
}

#[test]
fn chromakey_wanted_by_file_name() {
    assert!(needs_chromakey("REZ/TEXTURES/COBWEB1.DTX"));
    assert!(needs_chromakey("rez\\textures\\deco\\ChainLink.dtx"));
    assert!(needs_chromakey("Ladder_Met.dtx"));
    assert!(needs_chromakey("REZ/TEXTURES/GRATE01.DTX"));
    assert!(needs_chromakey("rez\\textures\\floor_grate.dtx"));
    assert!(!needs_chromakey("REZ/TEXTURES/BRICK.DTX"));
    // A fragment in a directory name does not count.
    assert!(!needs_chromakey("REZ/FENCE/BRICK.DTX"));
}

#[test]
fn texture_file_name_cleans_and_adds_extension() {
    assert_eq!(texture_file_name("textures\\wall\\brick"), "TEXTURESWALLBRICK.DTX");
    assert_eq!(texture_file_name("stone.dtx"), "STONE.DTX");
    assert_eq!(texture_file_name("a/b.DTX"), "AB.DTX");
    assert_eq!(texture_file_name(""), ".DTX");
}

#[test]
fn texture_name_variations_in_order() {
    let v = texture_name_variations("TEXTURES\\WALLS\\BRICK.DTX");
    assert_eq!(
        v,
        vec![
            "TEXTURES\\WALLS\\BRICK.DTX".to_string(),
            "WALLS\\BRICK.DTX".to_string(),
            "TEXTURES\\WALLS\\BRICK.DTX".to_string(),
            "BRICK.DTX".to_string(),
            "TEXTURES\\WALLS\\BRICK.DTX".to_string(),
        ]
    );
    let w = texture_name_variations("textures\\a/b");
    assert_eq!(w[2], "a/b");
    assert_eq!(w[3], "a/b");
    assert_eq!(w[4], "b");
}

#[test]
fn fallback_color_from_name_bytes() {
    // "ABC" sums to 198: 198 * 17 % 200 = 166, 198 * 31 % 200 = 138, 198 * 47 % 200 = 106.
    assert_eq!(fallback_color("ABC"), (221, 193, 161));
    assert_eq!(fallback_color(""), (55, 55, 55));
    // Multi-byte characters count every byte: "é" is 0xC3 0xA9 = 364.
    assert_eq!(fallback_color("é"), ((364 * 17 % 200 + 55) as u8, (364 * 31 % 200 + 55) as u8, (364 * 47 % 200 + 55) as u8));
}

#[test]
fn dtx_suffix_added_once() {
    assert_eq!(add_dtx_suffix("BRICK".to_string()), "BRICK.DTX");
    assert_eq!(add_dtx_suffix("BRICK.DTX".to_string()), "BRICK.DTX");
    assert_eq!(add_dtx_suffix("DTX".to_string()), "DTX.DTX");
    assert_eq!(add_dtx_suffix(String::new()), ".DTX");
}
