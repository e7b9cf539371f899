use assetc::bundle::build_bundle;
use assetc::bundle::build_bundle_raw;
use assetc::bundle::rewrap_bundle;
use assetc::bundle::Loaded;
use assetc::bundle::RawAsset;
use assetc::catalogue::build_catalogue;
use assetc::catalogue::TreeNode;

fn scenario_tree() -> Vec<TreeNode> {
    vec![TreeNode::Dir {
        name: b"terrain".to_vec(),
        children: vec![
            TreeNode::File { name: b"sand.png".to_vec(), text: Vec::new() },
            TreeNode::File {
                name: b"sprites.csv".to_vec(),
                text: b"terrain/sand.png,grass,0,0,32,32".to_vec(),
            },
        ],
    }]
}

#[test]
fn identity_decode_reads_back_raw_bytes() {
    let m = build_catalogue(&scenario_tree()).unwrap();
    let b = build_bundle_raw(&m, vec![b"PNGDATA".to_vec()]);
    assert_eq!(b.entries.len(), 1);
    assert_eq!(b.entries[0].0, b"terrain_sand_png".to_vec());
    match b.field(&b"terrain_sand_png".to_vec()) {
        Some(Loaded::Image(bytes)) => assert_eq!(bytes, &b"PNGDATA".to_vec()),
        other => panic!("unexpected field value: {:?}", other.is_some()),
    }
}

#[test]
fn sprite_accessor_returns_texture_and_rect() {
    let m = build_catalogue(&scenario_tree()).unwrap();
    let b = build_bundle_raw(&m, vec![b"PNGDATA".to_vec()]);
    let (tex, rect) = b.sprite(&b"terrain_sprites_csv_grass".to_vec()).unwrap();
    assert_eq!(tex, &b"PNGDATA".to_vec());
    assert_eq!(rect, (0, 0, 32, 32));
}

#[test]
fn unknown_identifiers_resolve_to_nothing() {
    let m = build_catalogue(&scenario_tree()).unwrap();
    let b = build_bundle_raw(&m, vec![b"PNGDATA".to_vec()]);
    assert!(b.field(&b"missing".to_vec()).is_none());
    assert!(b.sprite(&b"missing".to_vec()).is_none());
}

#[test]
fn decode_transforms_run_once_per_asset() {
    let m = build_catalogue(&scenario_tree()).unwrap();
    let b = build_bundle(
        &m,
        vec![b"PNG".to_vec()],
        |raw: RawAsset| raw.bytes.len(),
        |raw: RawAsset| raw.path.len(),
    );
    assert_eq!(b.entries.len(), 1);
    match &b.entries[0].1 {
        Loaded::Image(n) => assert_eq!(*n, 3usize),
        Loaded::Font(_) => panic!("a png decoded as a font"),
    }
    assert_eq!(b.regions.len(), 1);
}

#[test]
fn rewrap_composes_over_decoded_values() {
    let m = build_catalogue(&scenario_tree()).unwrap();
    let b = build_bundle_raw(&m, vec![b"PNGDATA".to_vec()]);
    let r = rewrap_bundle(
        b,
        |bytes: Vec<u8>| bytes.len(),
        |bytes: Vec<u8>| bytes.len(),
    );
    assert_eq!(r.entries.len(), 1);
    assert_eq!(r.entries[0].0, b"terrain_sand_png".to_vec());
    match &r.entries[0].1 {
        Loaded::Image(n) => assert_eq!(*n, 7usize),
        Loaded::Font(_) => panic!("a png re-wrapped as a font"),
    }
    // The regions survive the override pass untouched.
    assert_eq!(r.regions[0].identifier, b"terrain_sprites_csv_grass".to_vec());
}

#[test]
fn colliding_identifiers_shadow_later_entries() {
    // Two distinct paths can normalize to the same identifier; the bundle
    // resolves the identifier to the first entry.
    let tree = vec![
        TreeNode::File { name: b"a.b.png".to_vec(), text: Vec::new() },
        TreeNode::File { name: b"a_b.png".to_vec(), text: Vec::new() },
    ];
    // `a.b.png` has suffix `b.png`, so only `a_b.png` is recognized here;
    // build a real collision out of two directories instead.
    let tree2 = vec![
        TreeNode::Dir {
            name: b"a.b".to_vec(),
            children: vec![TreeNode::File { name: b"x.png".to_vec(), text: Vec::new() }],
        },
        TreeNode::Dir {
            name: b"a_b".to_vec(),
            children: vec![TreeNode::File { name: b"x.png".to_vec(), text: Vec::new() }],
        },
    ];
    let m = build_catalogue(&tree).unwrap();
    assert_eq!(m.assets.len(), 1);
    let m2 = build_catalogue(&tree2).unwrap();
    assert_eq!(m2.assets.len(), 2);
    assert_eq!(m2.assets[0].identifier, m2.assets[1].identifier);
    let b = build_bundle_raw(&m2, vec![b"ONE".to_vec(), b"TWO".to_vec()]);
    match b.field(&b"a_b_x_png".to_vec()) {
        Some(Loaded::Image(bytes)) => assert_eq!(bytes, &b"ONE".to_vec()),
        _ => panic!("collision did not resolve to the first entry"),
    }
}
