use respipe::kind::map::{MapResource, Prop, StaticGeometry};
use respipe::kind::proplib::{Image, Images, Library, Mesh, Prop as LibProp, PropGroup,
    ProplibResource, Sprite, Texture};
use respipe::kind::{Resource, ResourceDefinition, ResourceInfo};
use respipe::namespace::Namespace;
use respipe::validate::{validate_static_geometry, ValidationError};

fn ns(pairs: &[(&str, &str)]) -> Namespace {
    let mut ns = Namespace::new();
    for (k, v) in pairs {
        ns.insert((*k).to_owned(), (*v).to_owned());
    }
    ns
}

fn info(name: &str, id: i64, pairs: &[(&str, &str)]) -> ResourceInfo {
    ResourceInfo {
        name: name.to_owned(),
        id,
        version: 1,
        namespaces: ns(pairs),
    }
}

fn forest_library() -> Library {
    Library {
        name: "forest_props".to_owned(),
        prop_groups: vec![PropGroup {
            name: "trees".to_owned(),
            props: vec![
                LibProp {
                    name: "oak".to_owned(),
                    mesh: Some(Mesh {
                        file: "oak.3ds".to_owned(),
                        textures: vec![Texture {
                            name: "bark".to_owned(),
                            diffuse_map: "bark.jpg".to_owned(),
                        }],
                    }),
                    sprite: None,
                },
                LibProp {
                    name: "bush".to_owned(),
                    mesh: None,
                    sprite: Some(Sprite { file: "bush.png".to_owned() }),
                },
            ],
        }],
    }
}

fn forest_proplib(id: i64, pairs: &[(&str, &str)]) -> ProplibResource {
    ProplibResource {
        root: "p".to_owned(),
        info: Some(info("props.forest", id, pairs)),
        name: Some("forest_props".to_owned()),
        namespace: None,
        library: Some(forest_library()),
        images: None,
        tree: vec![
            "p/oak.3ds".to_owned(),
            "p/bark.jpg".to_owned(),
            "p/bush.png".to_owned(),
        ],
    }
}

fn placement(lib: &str, group: &str, prop: &str, texture: &str) -> Prop {
    Prop {
        library_name: lib.to_owned(),
        group_name: group.to_owned(),
        name: prop.to_owned(),
        texture_name: texture.to_owned(),
    }
}

fn map_with_ns(pairs: &[(&str, &str)]) -> MapResource {
    let mut map = MapResource {
        root: "maps/arena".to_owned(),
        info: None,
        map: None,
        parsed: None,
        proplibs: Vec::new(),
        namespace: None,
    };
    map.init(info("maps.arena", 9, pairs));
    map
}

#[test]
fn a_map_binds_only_libraries_of_its_own_namespace() {
    // two variants of the same library, one per generation; a map under a
    // @gen=1 segment must bind the first
    let lib1 = ResourceDefinition::Proplib(forest_proplib(111, &[("gen", "1"), ("theme", "forest")]));
    let lib2 = ResourceDefinition::Proplib(forest_proplib(222, &[("gen", "2"), ("theme", "forest")]));
    let resources = vec![lib1, lib2];
    let mut map = map_with_ns(&[("gen", "1")]);
    let unresolved = map.init_proplibs(
        StaticGeometry { props: vec![placement("forest_props", "trees", "oak", "bark")] },
        &resources,
    );
    assert!(unresolved.is_empty());
    assert_eq!(map.proplibs.len(), 1);
    assert_eq!(map.proplibs[0].0, "forest_props");
    assert_eq!(map.proplibs[0].1.id, 111);
}

#[test]
fn a_library_of_another_generation_is_never_bound() {
    let lib2 = ResourceDefinition::Proplib(forest_proplib(222, &[("gen", "2"), ("theme", "arctic")]));
    let resources = vec![lib2];
    let mut map = map_with_ns(&[("gen", "1"), ("theme", "arctic")]);
    let unresolved = map.init_proplibs(
        StaticGeometry { props: vec![placement("forest_props", "trees", "oak", "bark")] },
        &resources,
    );
    assert!(map.proplibs.is_empty());
    assert_eq!(unresolved, vec!["forest_props"]);
}

#[test]
fn a_namespace_free_map_binds_by_name_alone() {
    let lib = ResourceDefinition::Proplib(forest_proplib(42, &[("gen", "1"), ("theme", "forest")]));
    let resources = vec![lib];
    let mut map = map_with_ns(&[]);
    let unresolved = map.init_proplibs(
        StaticGeometry { props: vec![placement("forest_props", "trees", "oak", "bark")] },
        &resources,
    );
    assert!(unresolved.is_empty());
    assert_eq!(map.proplibs.len(), 1);
}

#[test]
fn the_last_matching_library_wins() {
    let first = ResourceDefinition::Proplib(forest_proplib(1, &[("gen", "1")]));
    let second = ResourceDefinition::Proplib(forest_proplib(2, &[("gen", "1")]));
    let resources = vec![first, second];
    let mut map = map_with_ns(&[("gen", "1")]);
    map.init_proplibs(
        StaticGeometry { props: vec![placement("forest_props", "trees", "oak", "")] },
        &resources,
    );
    assert_eq!(map.proplibs.len(), 1);
    assert_eq!(map.proplibs[0].1.id, 2);
}

#[test]
fn proplibs_manifest_renders_hexadecimal_identities() {
    let lib = ResourceDefinition::Proplib(forest_proplib(255, &[("gen", "1")]));
    let resources = vec![lib];
    let mut map = map_with_ns(&[("gen", "1")]);
    map.init_proplibs(
        StaticGeometry { props: vec![placement("forest_props", "trees", "oak", "bark")] },
        &resources,
    );
    let manifest = map.proplibs_manifest();
    assert_eq!(manifest.libraries.len(), 1);
    assert_eq!(manifest.libraries[0].name, "forest_props");
    assert_eq!(manifest.libraries[0].id, "ff");
    assert_eq!(manifest.libraries[0].version, "1");
}

#[test]
fn a_valid_map_passes_validation() {
    let lib = forest_proplib(1, &[("gen", "1"), ("theme", "forest")]);
    let group = vec![&lib];
    let meshes = vec![("p/oak.3ds".to_owned(), Some("bark.jpg".to_owned()))];
    let props = vec![
        placement("forest_props", "trees", "oak", "bark"),
        placement("forest_props", "trees", "oak", ""),
        placement("forest_props", "trees", "bush", ""),
        // a repeated placement is checked once and stays valid
        placement("forest_props", "trees", "oak", "bark"),
    ];
    assert!(validate_static_geometry(&group, &meshes, &props).is_ok());
}

#[test]
fn an_unknown_prop_is_fatal() {
    let lib = forest_proplib(1, &[]);
    let group = vec![&lib];
    let props = vec![placement("forest_props", "trees", "willow", "")];
    let no_meshes: Vec<(String, Option<String>)> = Vec::new();
    match validate_static_geometry(&group, &no_meshes, &props) {
        Err(ValidationError::PropNotFound { library, group, prop }) => {
            assert_eq!(library, "forest_props");
            assert_eq!(group, "trees");
            assert_eq!(prop, "willow");
        },
        _ => panic!("expected the missing prop to be fatal"),
    }
}

#[test]
fn a_mesh_without_default_texture_names_the_prop() {
    // the placement leaves the texture open and the mesh embeds no default
    let lib = forest_proplib(1, &[]);
    let group = vec![&lib];
    let meshes = vec![("p/oak.3ds".to_owned(), None)];
    let props = vec![placement("forest_props", "trees", "oak", "")];
    match validate_static_geometry(&group, &meshes, &props) {
        Err(ValidationError::NoDefaultTexture { library, group, prop, file }) => {
            assert_eq!(library, "forest_props");
            assert_eq!(group, "trees");
            assert_eq!(prop, "oak");
            assert_eq!(file, "oak.3ds");
        },
        _ => panic!("expected the missing default texture to be fatal"),
    }
}

#[test]
fn a_missing_mesh_file_is_fatal() {
    let mut lib = forest_proplib(1, &[]);
    lib.tree = vec!["p/bark.jpg".to_owned()];
    let group = vec![&lib];
    let props = vec![placement("forest_props", "trees", "oak", "")];
    let no_meshes: Vec<(String, Option<String>)> = Vec::new();
    match validate_static_geometry(&group, &no_meshes, &props) {
        Err(ValidationError::MeshFileMissing { prop, .. }) => assert_eq!(prop, "oak"),
        _ => panic!("expected the missing mesh file to be fatal"),
    }
}

#[test]
fn an_undeclared_explicit_texture_is_fatal() {
    let lib = forest_proplib(1, &[]);
    let group = vec![&lib];
    let props = vec![placement("forest_props", "trees", "oak", "granite")];
    let no_meshes: Vec<(String, Option<String>)> = Vec::new();
    match validate_static_geometry(&group, &no_meshes, &props) {
        Err(ValidationError::TextureNotFound { texture, .. }) => assert_eq!(texture, "granite"),
        _ => panic!("expected the undeclared texture to be fatal"),
    }
}

#[test]
fn a_missing_diffuse_image_is_fatal() {
    let mut lib = forest_proplib(1, &[]);
    lib.tree = vec!["p/oak.3ds".to_owned()];
    let group = vec![&lib];
    let props = vec![placement("forest_props", "trees", "oak", "bark")];
    let no_meshes: Vec<(String, Option<String>)> = Vec::new();
    match validate_static_geometry(&group, &no_meshes, &props) {
        Err(ValidationError::DiffuseMissing { file, .. }) => assert_eq!(file, "bark.jpg"),
        _ => panic!("expected the missing diffuse image to be fatal"),
    }
}

#[test]
fn image_remappings_answer_case_insensitively() {
    let mut lib = forest_proplib(1, &[]);
    lib.images = Some(Images {
        images: vec![Image {
            name: "BUSH.PNG".to_owned(),
            diffuse: "bush_d.jpg".to_owned(),
            alpha: Some("bush_a.jpg".to_owned()),
        }],
    });
    lib.tree = vec![
        "p/oak.3ds".to_owned(),
        "p/BUSH_D.JPG".to_owned(),
        "p/bush_a.jpg".to_owned(),
    ];
    let group = vec![&lib];
    let props = vec![placement("forest_props", "trees", "bush", "")];
    let no_meshes: Vec<(String, Option<String>)> = Vec::new();
    assert!(validate_static_geometry(&group, &no_meshes, &props).is_ok());
}

#[test]
fn a_missing_alpha_image_is_fatal() {
    let mut lib = forest_proplib(1, &[]);
    lib.images = Some(Images {
        images: vec![Image {
            name: "bush.png".to_owned(),
            diffuse: "bush_d.jpg".to_owned(),
            alpha: Some("bush_a.jpg".to_owned()),
        }],
    });
    lib.tree = vec!["p/bush_d.jpg".to_owned()];
    let group = vec![&lib];
    let props = vec![placement("forest_props", "trees", "bush", "")];
    let no_meshes: Vec<(String, Option<String>)> = Vec::new();
    match validate_static_geometry(&group, &no_meshes, &props) {
        Err(ValidationError::AlphaMissing { file, .. }) => assert_eq!(file, "bush_a.jpg"),
        _ => panic!("expected the missing alpha image to be fatal"),
    }
}

#[test]
fn library_image_manifests_are_checked_against_the_tree() {
    let mut lib = forest_proplib(1, &[]);
    lib.images = Some(Images {
        images: vec![Image {
            name: "bark".to_owned(),
            diffuse: "BARK.jpg".to_owned(),
            alpha: None,
        }],
    });
    // the diffuse file differs only in case, which the probe accepts
    assert!(lib.validate_images().is_ok());

    lib.images = Some(Images {
        images: vec![Image {
            name: "bark".to_owned(),
            diffuse: "missing.jpg".to_owned(),
            alpha: None,
        }],
    });
    match lib.validate_images() {
        Err(respipe::kind::proplib::ImageCheckError::DiffuseMissing { texture, file }) => {
            assert_eq!(texture, "bark");
            assert_eq!(file, "missing.jpg");
        },
        _ => panic!("expected the missing diffuse file to be fatal"),
    }

    lib.images = Some(Images {
        images: vec![Image {
            name: "bark".to_owned(),
            diffuse: "bark.jpg".to_owned(),
            alpha: Some("bark_a.jpg".to_owned()),
        }],
    });
    match lib.validate_images() {
        Err(respipe::kind::proplib::ImageCheckError::AlphaMissing { file, .. }) => {
            assert_eq!(file, "bark_a.jpg");
        },
        _ => panic!("expected the missing alpha file to be fatal"),
    }

    lib.images = None;
    assert!(lib.validate_images().is_ok());
}

#[test]
fn a_combination_without_generation_or_theme_is_skipped() {
    let lib = ResourceDefinition::Proplib(forest_proplib(1, &[("theme", "forest")]));
    let resources = vec![lib];
    let mut map = map_with_ns(&[]);
    map.init_proplibs(
        StaticGeometry { props: vec![placement("forest_props", "trees", "willow", "")] },
        &resources,
    );
    // the placement would fail validation, but its only combination lacks
    // the generation key, so the pass skips it with a warning
    let no_meshes: Vec<(String, Option<String>)> = Vec::new();
    let skipped = map.validate_props(&resources, &no_meshes).unwrap();
    assert_eq!(skipped.len(), 1);
    assert_eq!(skipped[0].get("theme").map(|s| s.as_str()), Some("forest"));
}

#[test]
fn the_validation_pass_reports_the_failing_combination() {
    let lib = ResourceDefinition::Proplib(forest_proplib(1, &[("gen", "1"), ("theme", "forest")]));
    let resources = vec![lib];
    let mut map = map_with_ns(&[("gen", "1")]);
    map.init_proplibs(
        StaticGeometry { props: vec![placement("forest_props", "trees", "willow", "")] },
        &resources,
    );
    let no_meshes: Vec<(String, Option<String>)> = Vec::new();
    match map.validate_props(&resources, &no_meshes) {
        Err(ValidationError::PropNotFound { prop, .. }) => assert_eq!(prop, "willow"),
        _ => panic!("expected the unknown prop to surface"),
    }
}

#[test]
fn the_validation_pass_accepts_a_consistent_catalogue() {
    let lib = ResourceDefinition::Proplib(forest_proplib(1, &[("gen", "1"), ("theme", "forest")]));
    let resources = vec![lib];
    let meshes = vec![("p/oak.3ds".to_owned(), Some("bark.jpg".to_owned()))];
    let mut map = map_with_ns(&[("gen", "1")]);
    map.init_proplibs(
        StaticGeometry { props: vec![placement("forest_props", "trees", "oak", "")] },
        &resources,
    );
    let skipped = map.validate_props(&resources, &meshes).unwrap();
    assert!(skipped.is_empty());
}
