use assetc::catalogue::build_catalogue;
use assetc::catalogue::find_duplicate_identifier;
use assetc::catalogue::AssetRecord;
use assetc::catalogue::TreeNode;
use assetc::chain::PathChain;
use assetc::classify::classify;
use assetc::classify::mime_bytes;
use assetc::classify::AssetKind;
use assetc::classify::FileClass;
use assetc::ident::flat_identifier;
use assetc::ident::relative_path;
use assetc::pipeline::compile;
use assetc::sprite::parse_line;
use assetc::sprite::parse_manifest;
use assetc::sprite::LineFault;
use assetc::text::parse_u32;
use assetc::text::render_u32;

fn terrain_chain() -> PathChain {
    let root = PathChain::root();
    root.extend(&b"terrain".to_vec())
}

#[test]
fn flat_identifier_flattens_and_folds() {
    let chain = terrain_chain().extend(&b"sprites.csv".to_vec());
    assert_eq!(flat_identifier(&chain), b"terrain_sprites_csv".to_vec());
}

#[test]
fn flat_identifier_lowercases() {
    let chain = PathChain::root().extend(&b"Art".to_vec()).extend(&b"Sand.PNG".to_vec());
    assert_eq!(flat_identifier(&chain), b"art_sand_png".to_vec());
}

#[test]
fn relative_path_keeps_casing_and_dots() {
    let chain = terrain_chain().extend(&b"Sand.png".to_vec());
    assert_eq!(relative_path(&chain), b"/terrain/Sand.png".to_vec());
}

#[test]
fn empty_chain_gives_empty_identifier_and_path() {
    let chain = PathChain::root();
    assert_eq!(flat_identifier(&chain), Vec::<u8>::new());
    assert_eq!(relative_path(&chain), Vec::<u8>::new());
}

#[test]
fn classifier_recognizes_the_three_kinds() {
    assert_eq!(classify(&b"sand.png".to_vec()), Some(FileClass::Asset(AssetKind::Image)));
    assert_eq!(classify(&b"hack-regular.ttf".to_vec()), Some(FileClass::Asset(AssetKind::Font)));
    assert_eq!(classify(&b"sprites.csv".to_vec()), Some(FileClass::SpriteManifest));
    assert_eq!(classify(&b"terrain.sprites.csv".to_vec()), Some(FileClass::SpriteManifest));
}

#[test]
fn classifier_skips_unrecognized_suffixes() {
    assert_eq!(classify(&b"README.md".to_vec()), None);
    assert_eq!(classify(&b"notes.csv".to_vec()), None);
    assert_eq!(classify(&b"png".to_vec()), None);
    assert_eq!(classify(&b"DS_Store".to_vec()), None);
    assert_eq!(classify(&b"archive.png.bak".to_vec()), None);
}

#[test]
fn classifier_splits_on_the_first_dot() {
    // The suffix is everything after the first dot, matched as a literal.
    assert_eq!(classify(&b"a.b.png".to_vec()), None);
    assert_eq!(classify(&b".png".to_vec()), Some(FileClass::Asset(AssetKind::Image)));
}

#[test]
fn mime_strings() {
    assert_eq!(mime_bytes(AssetKind::Image), b"image/png".to_vec());
    assert_eq!(mime_bytes(AssetKind::Font), b"font/ttf".to_vec());
}

#[test]
fn parse_u32_accepts_digits_only() {
    assert_eq!(parse_u32(&b"0".to_vec()), Some(0));
    assert_eq!(parse_u32(&b"32".to_vec()), Some(32));
    assert_eq!(parse_u32(&b"4294967295".to_vec()), Some(u32::MAX));
    assert_eq!(parse_u32(&b"4294967296".to_vec()), None);
    assert_eq!(parse_u32(&b"".to_vec()), None);
    assert_eq!(parse_u32(&b"-1".to_vec()), None);
    assert_eq!(parse_u32(&b"3x".to_vec()), None);
}

#[test]
fn render_u32_shortest_decimal() {
    assert_eq!(render_u32(0), b"0".to_vec());
    assert_eq!(render_u32(32), b"32".to_vec());
    assert_eq!(render_u32(4294967295), b"4294967295".to_vec());
}

#[test]
fn line_with_six_fields_parses() {
    let fid = b"terrain_sprites_csv".to_vec();
    let line = b"terrain/sand.png,grass,0,0,32,32".to_vec();
    let region = parse_line(&fid, &line).unwrap();
    assert_eq!(region.identifier, b"terrain_sprites_csv_grass".to_vec());
    assert_eq!(region.texture_identifier, b"terrain_sand_png".to_vec());
    assert_eq!(region.rect, (0, 0, 32, 32));
}

#[test]
fn line_with_five_fields_is_fatal() {
    let fid = b"m".to_vec();
    let line = b"a,b,0,0,10".to_vec();
    assert_eq!(parse_line(&fid, &line), Err(LineFault::FieldCount(5)));
}

#[test]
fn line_with_seven_fields_is_fatal() {
    let fid = b"m".to_vec();
    let line = b"a,b,0,0,10,10,extra".to_vec();
    assert_eq!(parse_line(&fid, &line), Err(LineFault::FieldCount(7)));
}

#[test]
fn line_with_non_numeric_coordinate_is_fatal() {
    let fid = b"m".to_vec();
    let line = b"a,b,0,0,wide,10".to_vec();
    assert_eq!(parse_line(&fid, &line), Err(LineFault::BadCoordinate));
}

#[test]
fn manifest_parses_lines_in_file_order() {
    let fid = b"m".to_vec();
    let text = b"t.png,a,0,0,1,1\nt.png,b,1,0,1,1\n".to_vec();
    let regions = parse_manifest(&fid, &text).unwrap();
    assert_eq!(regions.len(), 2);
    assert_eq!(regions[0].identifier, b"m_a".to_vec());
    assert_eq!(regions[1].identifier, b"m_b".to_vec());
    assert_eq!(regions[1].rect, (1, 0, 1, 1));
}

#[test]
fn manifest_fault_names_the_line() {
    let fid = b"m".to_vec();
    let text = b"t.png,a,0,0,1,1\na,b,0,0,10\n".to_vec();
    let fault = parse_manifest(&fid, &text).unwrap_err();
    assert_eq!(fault.line, 1);
    assert_eq!(fault.fault, LineFault::FieldCount(5));
}

fn scenario_tree(manifest_line: &[u8]) -> Vec<TreeNode> {
    vec![TreeNode::Dir {
        name: b"terrain".to_vec(),
        children: vec![
            TreeNode::File { name: b"sand.png".to_vec(), text: Vec::new() },
            TreeNode::File { name: b"sprites.csv".to_vec(), text: manifest_line.to_vec() },
        ],
    }]
}

fn record(m: &assetc::catalogue::Manifest, i: usize) -> &AssetRecord {
    &m.assets[i]
}

#[test]
fn scenario_one_asset_one_region() {
    let tree = scenario_tree(b"terrain/sand.png,grass,0,0,32,32");
    let m = build_catalogue(&tree).unwrap();
    assert_eq!(m.assets.len(), 1);
    let a = record(&m, 0);
    assert_eq!(a.identifier, b"terrain_sand_png".to_vec());
    assert_eq!(a.relative_path, b"/terrain/sand.png".to_vec());
    assert_eq!(a.mime, b"image/png".to_vec());
    assert_eq!(a.kind, AssetKind::Image);
    assert_eq!(m.regions.len(), 1);
    assert_eq!(m.regions[0].identifier, b"terrain_sprites_csv_grass".to_vec());
    assert_eq!(m.regions[0].texture_identifier, b"terrain_sand_png".to_vec());
    assert_eq!(m.regions[0].rect, (0, 0, 32, 32));
}

#[test]
fn scenario_five_field_line_aborts_the_build() {
    let tree = scenario_tree(b"a,b,0,0,10");
    let e = build_catalogue(&tree).unwrap_err();
    assert_eq!(e.path, b"/terrain/sprites.csv".to_vec());
    assert_eq!(e.fault.line, 0);
    assert_eq!(e.fault.fault, LineFault::FieldCount(5));
}

#[test]
fn record_count_matches_recognized_leaves() {
    let tree = vec![
        TreeNode::File { name: b"a.png".to_vec(), text: Vec::new() },
        TreeNode::Dir {
            name: b"fonts".to_vec(),
            children: vec![
                TreeNode::File { name: b"hack.ttf".to_vec(), text: Vec::new() },
                TreeNode::File { name: b"README.md".to_vec(), text: Vec::new() },
            ],
        },
        TreeNode::File { name: b"sprites.csv".to_vec(), text: Vec::new() },
    ];
    let m = build_catalogue(&tree).unwrap();
    // Two recognized leaves; the manifest file and the readme add no record.
    assert_eq!(m.assets.len(), 2);
    assert_eq!(m.assets[0].identifier, b"a_png".to_vec());
    assert_eq!(m.assets[1].identifier, b"fonts_hack_ttf".to_vec());
}

#[test]
fn compile_is_idempotent() {
    let tree = scenario_tree(b"terrain/sand.png,grass,0,0,32,32");
    let first = compile(&tree).unwrap();
    let second = compile(&tree).unwrap();
    assert_eq!(first, second);
}

#[test]
fn artifact_holds_the_four_pieces() {
    let tree = scenario_tree(b"terrain/sand.png,grass,0,0,32,32");
    let artifact = String::from_utf8(compile(&tree).unwrap()).unwrap();
    // Schema field.
    assert!(artifact.contains("pub terrain_sand_png:Tex,"));
    // Binding statement with path and MIME.
    assert!(artifact.contains(
        "terrain_sand_png:png(Raw{bytes:fetch(\"/terrain/sand.png\"),path:\"/terrain/sand.png\",mime:\"image/png\"}),"
    ));
    // Override pass.
    assert!(artifact.contains("terrain_sand_png:png(self.terrain_sand_png),"));
    // Sprite accessor.
    assert!(artifact.contains("pub fn terrain_sprites_csv_grass(&self)->Sprite<Tex>{"));
    assert!(artifact.contains("Sprite{tex:&self.terrain_sand_png,rect:(0,0,32,32)}"));
}

#[test]
fn empty_tree_compiles_to_the_bare_template() {
    let tree: Vec<TreeNode> = Vec::new();
    let artifact = String::from_utf8(compile(&tree).unwrap()).unwrap();
    let mut expected = String::new();
    expected.push_str("pub struct Raw{pub bytes:&'static [u8],pub path:&'static str,pub mime:&'static str}\n");
    expected.push_str("pub struct Sprite<'a,Tex>{pub tex:&'a Tex,pub rect:(u32,u32,u32,u32)}\n");
    expected.push_str("pub struct Resources<Tex,Font>{\n");
    expected.push_str("}\n");
    expected.push_str("impl<Tex,Font> Resources<Tex,Font>{\n");
    expected.push_str("pub fn build(mut fetch:impl FnMut(&'static str)->&'static [u8],mut png:impl FnMut(Raw)->Tex,mut ttf:impl FnMut(Raw)->Font)->Self{\n");
    expected.push_str("Resources{\n");
    expected.push_str("}\n");
    expected.push_str("}\n");
    expected.push_str("pub fn rewrap<Tex2,Font2>(self,mut png:impl FnMut(Tex)->Tex2,mut ttf:impl FnMut(Font)->Font2)->Resources<Tex2,Font2>{\n");
    expected.push_str("Resources{\n");
    expected.push_str("}\n");
    expected.push_str("}\n");
    expected.push_str("}\n");
    assert_eq!(artifact, expected);
}

#[test]
fn walk_keeps_discovery_order() {
    let tree = vec![
        TreeNode::File { name: b"b.png".to_vec(), text: Vec::new() },
        TreeNode::File { name: b"a.png".to_vec(), text: Vec::new() },
    ];
    let m = build_catalogue(&tree).unwrap();
    // Insertion order is discovery order, not sorted order.
    assert_eq!(m.assets[0].identifier, b"b_png".to_vec());
    assert_eq!(m.assets[1].identifier, b"a_png".to_vec());
}

#[test]
fn manifest_accepts_windows_line_endings() {
    let fid = b"m".to_vec();
    let text = b"t.png,a,0,0,1,1\r\nt.png,b,0,1,1,1\r\n".to_vec();
    let regions = parse_manifest(&fid, &text).unwrap();
    assert_eq!(regions.len(), 2);
    assert_eq!(regions[1].rect, (0, 1, 1, 1));
}

#[test]
fn empty_manifest_gives_no_regions() {
    let fid = b"m".to_vec();
    let regions = parse_manifest(&fid, &b"".to_vec()).unwrap();
    assert!(regions.is_empty());
}

#[test]
fn colliding_paths_are_reported() {
    let tree = vec![
        TreeNode::Dir {
            name: b"a.b".to_vec(),
            children: vec![TreeNode::File { name: b"x.png".to_vec(), text: Vec::new() }],
        },
        TreeNode::Dir {
            name: b"a_b".to_vec(),
            children: vec![TreeNode::File { name: b"x.png".to_vec(), text: Vec::new() }],
        },
    ];
    let m = build_catalogue(&tree).unwrap();
    assert_eq!(find_duplicate_identifier(&m), Some((0, 1)));
}

#[test]
fn distinct_identifiers_report_no_collision() {
    let tree = scenario_tree(b"terrain/sand.png,grass,0,0,32,32");
    let m = build_catalogue(&tree).unwrap();
    assert_eq!(find_duplicate_identifier(&m), None);
}
