use respipe::kind::image::ImageResource;
use respipe::kind::localization::LocalizationResource;
use respipe::kind::localized_image::LocalizedImageResource;
use respipe::kind::multiframe_texture::MultiframeTextureResource;
use respipe::kind::object3d::{Object3DImage, Object3DResource};
use respipe::kind::proplib::{LibraryXml, ProplibResource};
use respipe::kind::sound::SoundResource;
use respipe::kind::swf_library::SwfLibraryResource;
use respipe::kind::texture::TextureResource;
use respipe::kind::{Resource, ResourceKind};
use respipe::path::{derive_name, dir_of, file_name, get_namespaces, is_path_hidden, path_join,
    path_starts_with};
use respipe::pipeline::{build_short_definition, derive_short_name, parse_short_name,
    should_skip_processing, should_write_bundle};
use respipe::probe::file_exists_case_insensitive;

#[test]
fn hidden_paths() {
    assert!(is_path_hidden(".git/objects"));
    assert!(is_path_hidden("maps/.cache/x"));
    assert!(!is_path_hidden("maps/forest/map.xml"));
}

#[test]
fn path_pieces() {
    assert_eq!(file_name("a/b/c.xml"), "c.xml");
    assert_eq!(file_name("c.xml"), "c.xml");
    assert_eq!(dir_of("a/b/c.xml"), "a/b");
    assert_eq!(dir_of("c.xml"), "");
    assert_eq!(path_join("a/b", "c"), "a/b/c");
    assert_eq!(path_join("", "c"), "c");
    assert!(path_starts_with("a/b/c", "a/b"));
    assert!(!path_starts_with("a/bb/c", "a/b"));
    assert!(!path_starts_with("a", "a/b"));
}

#[test]
fn namespaces_read_off_path_segments() {
    let ns = get_namespaces("resources/@gen=1/@theme=forest/props");
    assert_eq!(ns.get("gen").map(|s| s.as_str()), Some("1"));
    assert_eq!(ns.get("theme").map(|s| s.as_str()), Some("forest"));
    assert!(ns.get("other").is_none());
}

#[test]
fn malformed_namespace_segments_are_ignored() {
    let ns = get_namespaces("x/@solo/@a=b=c/y");
    assert!(ns.get("solo").is_none());
    assert!(ns.get("a").is_none());
}

#[test]
fn namespaces_list_their_bindings() {
    let ns = get_namespaces("@gen=1/@theme=forest/@gen=2");
    let mut pairs = ns.to_pairs();
    pairs.sort();
    assert_eq!(
        pairs,
        vec![
            ("gen".to_owned(), "2".to_owned()),
            ("theme".to_owned(), "forest".to_owned()),
        ]
    );
}

#[test]
fn later_namespace_segments_shadow_earlier_ones() {
    let ns = get_namespaces("@gen=1/@gen=2/maps");
    assert_eq!(ns.get("gen").map(|s| s.as_str()), Some("2"));
}

#[test]
fn logical_names_leave_namespace_segments_out() {
    assert_eq!(derive_name("maps/@gen=1/forest"), "maps.forest");
    assert_eq!(derive_name("forest"), "forest");
    assert_eq!(derive_short_name("sounds/@gen=2", "boom"), "sounds.boom");
}

#[test]
fn short_form_names() {
    let (name, kind, ext) = parse_short_name("boom@Sound.mp3").unwrap();
    assert_eq!(name, "boom");
    assert_eq!(kind, "Sound");
    assert_eq!(ext, "mp3");
    let (name, kind, ext) = parse_short_name("arena@Map").unwrap();
    assert_eq!(name, "arena");
    assert_eq!(kind, "Map");
    assert_eq!(ext, "");
    assert!(parse_short_name("plain.mp3").is_none());
}

#[test]
fn short_form_definitions() {
    match build_short_definition("Sound", "sounds/boom@Sound.mp3") {
        Some(respipe::kind::ResourceDefinition::Sound(s)) => {
            assert_eq!(s.sound.as_deref(), Some("sounds/boom@Sound.mp3"));
        },
        _ => panic!("expected a sound"),
    }
    assert!(build_short_definition("Proplib", "x").is_none());
    assert!(build_short_definition("Object3D", "x").is_none());
}

#[test]
fn kind_codes() {
    assert_eq!(ResourceKind::SwfLibrary.code(), 1);
    assert_eq!(ResourceKind::Sound.code(), 4);
    assert_eq!(ResourceKind::GameMap.code(), 7);
    assert_eq!(ResourceKind::Proplib.code(), 8);
    assert_eq!(ResourceKind::Texture.code(), 9);
    assert_eq!(ResourceKind::Image.code(), 10);
    assert_eq!(ResourceKind::MultiframeTexture.code(), 11);
    assert_eq!(ResourceKind::ScalableImage.code(), 12);
    assert_eq!(ResourceKind::LocalizedImage.code(), 13);
    assert_eq!(ResourceKind::Object3D.code(), 17);
    assert_eq!(ResourceKind::Effects.code(), 25);
    assert_eq!(ResourceKind::RawData.code(), 400);
}

#[test]
fn bundle_writing_is_content_addressed() {
    assert!(should_write_bundle(false));
    assert!(!should_write_bundle(true));
}

#[test]
fn the_unchanged_short_circuit() {
    assert!(should_skip_processing(false, true, false));
    assert!(!should_skip_processing(true, true, false));
    assert!(!should_skip_processing(false, false, false));
    // localization data bypasses the short circuit
    assert!(!should_skip_processing(false, true, true));
}

#[test]
fn single_asset_paths_default_by_convention() {
    let sound = SoundResource { root: "sounds/boom".to_owned(), info: None, sound: None };
    assert_eq!(sound.get_sound(), "sounds/boom/sound.mp3");
    let sound = SoundResource {
        root: "sounds/boom".to_owned(),
        info: None,
        sound: Some("custom.mp3".to_owned()),
    };
    assert_eq!(sound.get_sound(), "sounds/boom/custom.mp3");
    let sound = SoundResource {
        root: "sounds/boom".to_owned(),
        info: None,
        sound: Some("sounds/boom/here.mp3".to_owned()),
    };
    assert_eq!(sound.get_sound(), "sounds/boom/here.mp3");

    let texture = TextureResource { root: "t".to_owned(), info: None, diffuse: None };
    assert_eq!(texture.get_diffuse(), "t/diffuse.jpg");
    let image = ImageResource { root: "i".to_owned(), info: None, image: None };
    assert_eq!(image.get_image(), "i/image.jpg");
    let swf = SwfLibraryResource { root: "s".to_owned(), info: None, file: None };
    assert_eq!(swf.get_library(), "s/library.swf");
}

#[test]
fn single_asset_outputs_carry_fixed_names() {
    let sound = SoundResource { root: "s".to_owned(), info: None, sound: None };
    let out = sound.output_files(vec![1, 2, 3]);
    assert_eq!(out.len(), 1);
    assert_eq!(out[0].0, "sound.swf");
    assert_eq!(out[0].1, vec![1, 2, 3]);

    let texture = TextureResource { root: "t".to_owned(), info: None, diffuse: None };
    assert_eq!(texture.output_files(vec![9])[0].0, "image.tnk");
    let image = ImageResource { root: "i".to_owned(), info: None, image: None };
    assert_eq!(image.output_files(vec![9])[0].0, "image.tnk");
    let swf = SwfLibraryResource { root: "s".to_owned(), info: None, file: None };
    assert_eq!(swf.output_files(vec![9])[0].0, "library.swf");
}

#[test]
fn multiframe_entries_keep_their_order() {
    let mft = MultiframeTextureResource {
        root: "m".to_owned(),
        info: None,
        diffuse: None,
        alpha: None,
    };
    assert_eq!(mft.get_diffuse(), "m/diffuse.jpg");
    assert_eq!(mft.get_alpha(), "m/alpha.jpg");
    let entries = mft.output_entries(vec![5, 6], Some(vec![1]), Some(vec![2]));
    let names: Vec<&str> = entries.iter().map(|e| e.0.as_str()).collect();
    assert_eq!(names, vec!["p", "a", "i"]);
    assert_eq!(entries[0].1, vec![5, 6]);
    let entries = mft.output_entries(vec![7], None, Some(vec![2]));
    let names: Vec<&str> = entries.iter().map(|e| e.0.as_str()).collect();
    assert_eq!(names, vec!["p", "i"]);
}

#[test]
fn multiframe_alpha_follows_the_alpha_override() {
    let mft = MultiframeTextureResource {
        root: "m".to_owned(),
        info: None,
        diffuse: Some("strip.jpg".to_owned()),
        alpha: Some("strip_a.jpg".to_owned()),
    };
    assert_eq!(mft.get_alpha(), "m/strip_a.jpg");
    let mft = MultiframeTextureResource {
        root: "m".to_owned(),
        info: None,
        diffuse: Some("strip.jpg".to_owned()),
        alpha: None,
    };
    assert_eq!(mft.get_alpha(), "m/alpha.jpg");
    assert_eq!(mft.input_files(), vec!["m/strip.jpg", "m/alpha.jpg"]);
}

#[test]
fn tree_kinds_leave_the_manifest_out_of_their_inputs() {
    let lib = ProplibResource {
        root: "props/forest".to_owned(),
        info: None,
        name: None,
        namespace: None,
        library: None,
        images: None,
        tree: vec![
            "props/forest/library.xml".to_owned(),
            "props/forest/resource.yaml".to_owned(),
            "props/forest/tree.3ds".to_owned(),
        ],
    };
    let inputs = lib.input_files();
    assert_eq!(inputs, vec!["props/forest/library.xml", "props/forest/tree.3ds"]);
}

#[test]
fn proplib_archives_every_file_under_its_bare_name() {
    let lib = ProplibResource {
        root: "p".to_owned(),
        info: None,
        name: None,
        namespace: None,
        library: None,
        images: None,
        tree: Vec::new(),
    };
    let (name, entries) = lib.output_files(vec![
        ("p/sub/tree.3ds".to_owned(), vec![1]),
        ("p/bark.jpg".to_owned(), vec![2]),
    ]);
    assert_eq!(name, "library.tara");
    assert_eq!(entries[0].0, "tree.3ds");
    assert_eq!(entries[1].0, "bark.jpg");
}

#[test]
fn proplib_binds_its_declared_name() {
    let mut lib = ProplibResource {
        root: "p".to_owned(),
        info: None,
        name: None,
        namespace: None,
        library: None,
        images: None,
        tree: Vec::new(),
    };
    lib.init_manifest(LibraryXml { name: "forest_props".to_owned() });
    assert_eq!(lib.name.as_deref(), Some("forest_props"));
}

#[test]
fn localized_images_rename_to_the_packed_extension() {
    let res = LocalizedImageResource {
        root: "li".to_owned(),
        info: None,
        tree: Vec::new(),
    };
    let out = res.output_files(vec![
        ("li/en/flag.png".to_owned(), vec![1]),
        ("li/readme".to_owned(), vec![2]),
    ]);
    assert_eq!(out[0].0, "flag.tnk");
    assert_eq!(out[1].0, "readme.tnk");
}

#[test]
fn localization_blob_name_comes_from_the_logical_name() {
    let mut res = LocalizationResource {
        root: "l".to_owned(),
        info: None,
        images: Vec::new(),
        strings: Vec::new(),
        tree: Vec::new(),
    };
    assert!(res.output_name().is_none());
    res.init(respipe::kind::ResourceInfo {
        name: "ui.localization.en".to_owned(),
        id: 1,
        version: 1,
        namespaces: respipe::namespace::Namespace::new(),
    });
    assert_eq!(res.output_name().as_deref(), Some("en.l18n"));
}

#[test]
fn localization_image_payload_paths() {
    let res = LocalizationResource {
        root: "l".to_owned(),
        info: None,
        images: Vec::new(),
        strings: Vec::new(),
        tree: Vec::new(),
    };
    assert_eq!(res.image_payload_path("en/flag.png"), "l/en/images/flag.png");
    assert_eq!(res.image_payload_path("flag.png"), "l/images/flag.png");
}

#[test]
fn object3d_inputs_and_manifest() {
    let obj = Object3DResource {
        root: "o".to_owned(),
        info: None,
        id: Some(12345),
        object: None,
        images: vec![
            ("skin".to_owned(), Object3DImage::Simple("img/skin.jpg".to_owned())),
            (
                "glass".to_owned(),
                Object3DImage::Complex {
                    diffuse: "img/glass.jpg".to_owned(),
                    alpha: "img/glass_a.jpg".to_owned(),
                },
            ),
        ],
    };
    let inputs = obj.input_files();
    assert_eq!(
        inputs,
        vec!["o/object.3ds", "o/img/skin.jpg", "o/img/glass.jpg", "o/img/glass_a.jpg"]
    );
    let manifest = obj.images_manifest();
    assert_eq!(manifest.images.len(), 2);
    assert_eq!(manifest.images[0].name, "skin");
    assert_eq!(manifest.images[0].diffuse, "skin.jpg");
    assert!(manifest.images[0].alpha.is_none());
    assert_eq!(manifest.images[1].diffuse, "glass.jpg");
    assert_eq!(manifest.images[1].alpha.as_deref(), Some("glass_a.jpg"));
}

#[test]
fn probe_matches_names_case_insensitively_within_a_directory() {
    let files = vec![
        "p/textures/BARK.JPG".to_owned(),
        "p/other/bark.jpg".to_owned(),
    ];
    let hit = file_exists_case_insensitive(&files, "p/textures/bark.jpg");
    assert_eq!(hit.as_deref(), Some("p/textures/BARK.JPG"));
    assert!(file_exists_case_insensitive(&files, "p/textures/leaf.jpg").is_none());
    // the directory part must match exactly
    assert!(file_exists_case_insensitive(&files, "p/TEXTURES/bark.jpg").is_none());
}
