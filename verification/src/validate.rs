use vstd::prelude::*;

use crate::kind::map::{map_ns_of, MapResource, Prop};
use crate::kind::ResourceDefinition;
use crate::namespace::Namespace;
use crate::kind::proplib::{Image, Mesh, Prop as LibProp, PropGroup, ProplibResource, Sprite,
    Texture};
use crate::path::spec_path_join;
use crate::probe::{file_exists_case_insensitive, spec_probe};
use crate::text::{lower_of, str_eq, to_lowercase};

verus! {

/// A fatal finding of the validation pass, carrying the full
/// library/group/prop identity chain of the failing reference.
#[derive(Debug)]
pub enum ValidationError<S> {
    /// A placement names a prop no library in the namespace group defines.
    PropNotFound { library: S, group: S, prop: S },
    /// A placement asks for a texture its prop's mesh does not declare.
    TextureNotFound { library: S, group: S, prop: S, texture: S },
    /// A prop's mesh file is missing under the library root.
    MeshFileMissing { library: S, group: S, prop: S, file: S },
    /// A prop's mesh file was found but its contents were not read.
    MeshNotParsed { library: S, group: S, prop: S, file: S },
    /// A placement leaves the texture open and the mesh embeds no default
    /// texture map.
    NoDefaultTexture { library: S, group: S, prop: S, file: S },
    /// No image remapping answers for a mesh texture's diffuse map.
    TextureMappingMissing { library: S, group: S, prop: S, texture: S },
    /// A resolved diffuse image file is missing.
    DiffuseMissing { library: S, group: S, prop: S, file: S },
    /// A resolved alpha image file is missing.
    AlphaMissing { library: S, group: S, prop: S, file: S },
    /// No image remapping answers for a sprite's file reference.
    SpriteMappingMissing { library: S, group: S, prop: S, sprite: S },
    /// A sprite's image file is missing under the library root.
    SpriteFileMissing { library: S, group: S, prop: S, file: S },
    /// A prop carries neither mesh nor sprite.
    InvalidProp { library: S, group: S, prop: S },
}

/// The abstract form of a validation finding.
pub open spec fn err_view(e: ValidationError<String>) -> ValidationError<Seq<char>> {
    match e {
        ValidationError::PropNotFound { library, group, prop } => ValidationError::PropNotFound {
            library: library@,
            group: group@,
            prop: prop@,
        },
        ValidationError::TextureNotFound { library, group, prop, texture } => {
            ValidationError::TextureNotFound {
                library: library@,
                group: group@,
                prop: prop@,
                texture: texture@,
            }
        },
        ValidationError::MeshFileMissing { library, group, prop, file } => {
            ValidationError::MeshFileMissing {
                library: library@,
                group: group@,
                prop: prop@,
                file: file@,
            }
        },
        ValidationError::MeshNotParsed { library, group, prop, file } => {
            ValidationError::MeshNotParsed {
                library: library@,
                group: group@,
                prop: prop@,
                file: file@,
            }
        },
        ValidationError::NoDefaultTexture { library, group, prop, file } => {
            ValidationError::NoDefaultTexture {
                library: library@,
                group: group@,
                prop: prop@,
                file: file@,
            }
        },
        ValidationError::TextureMappingMissing { library, group, prop, texture } => {
            ValidationError::TextureMappingMissing {
                library: library@,
                group: group@,
                prop: prop@,
                texture: texture@,
            }
        },
        ValidationError::DiffuseMissing { library, group, prop, file } => {
            ValidationError::DiffuseMissing {
                library: library@,
                group: group@,
                prop: prop@,
                file: file@,
            }
        },
        ValidationError::AlphaMissing { library, group, prop, file } => {
            ValidationError::AlphaMissing {
                library: library@,
                group: group@,
                prop: prop@,
                file: file@,
            }
        },
        ValidationError::SpriteMappingMissing { library, group, prop, sprite } => {
            ValidationError::SpriteMappingMissing {
                library: library@,
                group: group@,
                prop: prop@,
                sprite: sprite@,
            }
        },
        ValidationError::SpriteFileMissing { library, group, prop, file } => {
            ValidationError::SpriteFileMissing {
                library: library@,
                group: group@,
                prop: prop@,
                file: file@,
            }
        },
        ValidationError::InvalidProp { library, group, prop } => ValidationError::InvalidProp {
            library: library@,
            group: group@,
            prop: prop@,
        },
    }
}

/// The last prop with this name in a group's list, the one an index built
/// by insertion keeps.
pub open spec fn find_prop_in_props(props: Seq<LibProp>, name: Seq<char>) -> Option<int>
    decreases props.len(),
{
    if props.len() == 0 {
        None
    } else if props.last().name@ == name {
        Some(props.len() - 1)
    } else {
        find_prop_in_props(props.drop_last(), name)
    }
}

/// The last group with this name that defines the prop.
pub open spec fn find_in_groups(groups: Seq<PropGroup>, gname: Seq<char>, pname: Seq<char>) -> Option<
    (int, int),
>
    decreases groups.len(),
{
    if groups.len() == 0 {
        None
    } else if groups.last().name@ == gname && find_prop_in_props(groups.last().props@, pname)
        is Some {
        match find_prop_in_props(groups.last().props@, pname) {
            Some(pi) => Some((groups.len() - 1, pi)),
            None => None,
        }
    } else {
        find_in_groups(groups.drop_last(), gname, pname)
    }
}

/// The last library in the namespace group whose parsed manifest declares
/// the wanted name and defines the wanted group and prop: the entry an
/// index keyed by the identity triple keeps.
pub open spec fn find_lib(
    libs: Seq<ProplibResource>,
    lname: Seq<char>,
    gname: Seq<char>,
    pname: Seq<char>,
) -> Option<(int, int, int)>
    decreases libs.len(),
{
    if libs.len() == 0 {
        None
    } else {
        let l = libs.last();
        match l.library {
            Some(doc) => if doc.name@ == lname && find_in_groups(doc.prop_groups@, gname, pname)
                is Some {
                match find_in_groups(doc.prop_groups@, gname, pname) {
                    Some((gi, pi)) => Some((libs.len() - 1, gi, pi)),
                    None => None,
                }
            } else {
                find_lib(libs.drop_last(), lname, gname, pname)
            },
            None => find_lib(libs.drop_last(), lname, gname, pname),
        }
    }
}

/// The first declared texture of a mesh with this name.
pub open spec fn find_texture(textures: Seq<Texture>, name: Seq<char>) -> Option<int>
    decreases textures.len(),
{
    if textures.len() == 0 {
        None
    } else if textures.first().name@ == name {
        Some(0int)
    } else {
        match find_texture(textures.drop_first(), name) {
            Some(i) => Some(i + 1),
            None => None,
        }
    }
}

/// The first image remapping whose name matches up to case.
pub open spec fn find_image_ci(images: Seq<Image>, want: Seq<char>) -> Option<int>
    decreases images.len(),
{
    if images.len() == 0 {
        None
    } else if lower_of(images.first().name@) == lower_of(want) {
        Some(0int)
    } else {
        match find_image_ci(images.drop_first(), want) {
            Some(i) => Some(i + 1),
            None => None,
        }
    }
}

/// What the mesh reader found in a mesh file: nothing when the file was
/// never read, or its embedded default texture-map name, which may be
/// absent.
pub open spec fn find_mesh_default(meshes: Seq<(String, Option<String>)>, path: Seq<char>) -> Option<
    Option<Seq<char>>,
>
    decreases meshes.len(),
{
    if meshes.len() == 0 {
        None
    } else if meshes.first().0@ == path {
        match meshes.first().1 {
            Some(t) => Some(Some(t@)),
            None => Some(None),
        }
    } else {
        find_mesh_default(meshes.drop_first(), path)
    }
}

/// The file listing under a library's root.
pub open spec fn tree_views(lib: ProplibResource) -> Seq<Seq<char>> {
    lib.tree@.map_values(|p: String| p@)
}

/// Checks that a resolved texture's image files exist: through the
/// library's image remapping manifest when it has one, directly under the
/// root otherwise.
pub open spec fn spec_check_images(
    lib: ProplibResource,
    texture_name: Seq<char>,
    diffuse_map: Seq<char>,
    mp: Prop,
) -> Result<(), ValidationError<Seq<char>>> {
    match lib.images {
        Some(images) => match find_image_ci(images.images@, diffuse_map) {
            Some(ii) => {
                let img = images.images@[ii];
                if spec_probe(tree_views(lib), spec_path_join(lib.root@, img.diffuse@)) is None {
                    Err(
                        ValidationError::DiffuseMissing {
                            library: mp.library_name@,
                            group: mp.group_name@,
                            prop: mp.name@,
                            file: img.diffuse@,
                        },
                    )
                } else {
                    match img.alpha {
                        Some(alpha) => if spec_probe(
                            tree_views(lib),
                            spec_path_join(lib.root@, alpha@),
                        ) is None {
                            Err(
                                ValidationError::AlphaMissing {
                                    library: mp.library_name@,
                                    group: mp.group_name@,
                                    prop: mp.name@,
                                    file: alpha@,
                                },
                            )
                        } else {
                            Ok(())
                        },
                        None => Ok(()),
                    }
                }
            },
            None => Err(
                ValidationError::TextureMappingMissing {
                    library: mp.library_name@,
                    group: mp.group_name@,
                    prop: mp.name@,
                    texture: texture_name,
                },
            ),
        },
        None => if spec_probe(tree_views(lib), spec_path_join(lib.root@, diffuse_map)) is None {
            Err(
                ValidationError::DiffuseMissing {
                    library: mp.library_name@,
                    group: mp.group_name@,
                    prop: mp.name@,
                    file: diffuse_map,
                },
            )
        } else {
            Ok(())
        },
    }
}

/// Resolves a mesh prop's diffuse texture and checks its image files: the
/// placement's explicit texture when it names one, the mesh file's
/// embedded default otherwise.
pub open spec fn spec_check_mesh(
    lib: ProplibResource,
    mesh: Mesh,
    mp: Prop,
    meshes: Seq<(String, Option<String>)>,
) -> Result<(), ValidationError<Seq<char>>> {
    if mp.texture_name@.len() > 0 {
        match find_texture(mesh.textures@, mp.texture_name@) {
            Some(ti) => spec_check_images(
                lib,
                mesh.textures@[ti].name@,
                mesh.textures@[ti].diffuse_map@,
                mp,
            ),
            None => Err(
                ValidationError::TextureNotFound {
                    library: mp.library_name@,
                    group: mp.group_name@,
                    prop: mp.name@,
                    texture: mp.texture_name@,
                },
            ),
        }
    } else {
        match spec_probe(tree_views(lib), spec_path_join(lib.root@, mesh.file@)) {
            Some(found) => match find_mesh_default(meshes, found) {
                Some(Some(tex)) => spec_check_images(lib, tex, tex, mp),
                Some(None) => Err(
                    ValidationError::NoDefaultTexture {
                        library: mp.library_name@,
                        group: mp.group_name@,
                        prop: mp.name@,
                        file: mesh.file@,
                    },
                ),
                None => Err(
                    ValidationError::MeshNotParsed {
                        library: mp.library_name@,
                        group: mp.group_name@,
                        prop: mp.name@,
                        file: mesh.file@,
                    },
                ),
            },
            None => Err(
                ValidationError::MeshFileMissing {
                    library: mp.library_name@,
                    group: mp.group_name@,
                    prop: mp.name@,
                    file: mesh.file@,
                },
            ),
        }
    }
}

/// Checks a sprite prop's image files, through the remapping manifest when
/// the library has one.
pub open spec fn spec_check_sprite(lib: ProplibResource, sprite: Sprite, mp: Prop) -> Result<
    (),
    ValidationError<Seq<char>>,
> {
    match lib.images {
        Some(images) => match find_image_ci(images.images@, sprite.file@) {
            Some(ii) => {
                let img = images.images@[ii];
                if spec_probe(tree_views(lib), spec_path_join(lib.root@, img.diffuse@)) is None {
                    Err(
                        ValidationError::DiffuseMissing {
                            library: mp.library_name@,
                            group: mp.group_name@,
                            prop: mp.name@,
                            file: img.diffuse@,
                        },
                    )
                } else {
                    match img.alpha {
                        Some(alpha) => if spec_probe(
                            tree_views(lib),
                            spec_path_join(lib.root@, alpha@),
                        ) is None {
                            Err(
                                ValidationError::AlphaMissing {
                                    library: mp.library_name@,
                                    group: mp.group_name@,
                                    prop: mp.name@,
                                    file: alpha@,
                                },
                            )
                        } else {
                            Ok(())
                        },
                        None => Ok(()),
                    }
                }
            },
            None => Err(
                ValidationError::SpriteMappingMissing {
                    library: mp.library_name@,
                    group: mp.group_name@,
                    prop: mp.name@,
                    sprite: sprite.file@,
                },
            ),
        },
        None => if spec_probe(tree_views(lib), spec_path_join(lib.root@, sprite.file@)) is None {
            Err(
                ValidationError::SpriteFileMissing {
                    library: mp.library_name@,
                    group: mp.group_name@,
                    prop: mp.name@,
                    file: sprite.file@,
                },
            )
        } else {
            Ok(())
        },
    }
}

/// Checks one prop placement against a namespace group of libraries: the
/// prop must be defined, and its mesh or sprite's texture and image files
/// must all exist.
pub open spec fn spec_check_placement(
    libs: Seq<ProplibResource>,
    meshes: Seq<(String, Option<String>)>,
    mp: Prop,
) -> Result<(), ValidationError<Seq<char>>> {
    match find_lib(libs, mp.library_name@, mp.group_name@, mp.name@) {
        Some((li, gi, pi)) => {
            let lib = libs[li];
            match lib.library {
                Some(doc) => {
                    let prop = doc.prop_groups@[gi].props@[pi];
                    match prop.mesh {
                        Some(mesh) => spec_check_mesh(lib, mesh, mp, meshes),
                        None => match prop.sprite {
                            Some(sprite) => spec_check_sprite(lib, sprite, mp),
                            None => Err(
                                ValidationError::InvalidProp {
                                    library: mp.library_name@,
                                    group: mp.group_name@,
                                    prop: mp.name@,
                                },
                            ),
                        },
                    }
                },
                None => Err(
                    ValidationError::PropNotFound {
                        library: mp.library_name@,
                        group: mp.group_name@,
                        prop: mp.name@,
                    },
                ),
            }
        },
        None => Err(
            ValidationError::PropNotFound {
                library: mp.library_name@,
                group: mp.group_name@,
                prop: mp.name@,
            },
        ),
    }
}

/// Checks every placement in order; the first failing placement's finding
/// is the result.
pub open spec fn spec_validate(
    libs: Seq<ProplibResource>,
    meshes: Seq<(String, Option<String>)>,
    props: Seq<Prop>,
) -> Result<(), ValidationError<Seq<char>>>
    decreases props.len(),
{
    if props.len() == 0 {
        Ok(())
    } else {
        match spec_check_placement(libs, meshes, props.first()) {
            Ok(()) => spec_validate(libs, meshes, props.drop_first()),
            Err(e) => Err(e),
        }
    }
}

/// The checks a placement passes depend only on the four names it carries.
pub proof fn lemma_check_placement_extensional(
    libs: Seq<ProplibResource>,
    meshes: Seq<(String, Option<String>)>,
    a: Prop,
    b: Prop,
)
    requires
        a.library_name@ == b.library_name@,
        a.group_name@ == b.group_name@,
        a.name@ == b.name@,
        a.texture_name@ == b.texture_name@,
    ensures
        spec_check_placement(libs, meshes, a) == spec_check_placement(libs, meshes, b),
{
}

fn lookup_prop_in_props(props: &Vec<LibProp>, name: &str) -> (r: Option<usize>)
    ensures
        match r {
            Some(i) => find_prop_in_props(props@, name@) == Some(i as int) && i < props@.len(),
            None => find_prop_in_props(props@, name@) is None,
        },
{
    let mut i = props.len();
    proof {
        assert(props@.take(props@.len() as int) =~= props@);
    }
    while i > 0
        invariant
            i <= props@.len(),
            find_prop_in_props(props@, name@) == find_prop_in_props(props@.take(i as int), name@),
        decreases i,
    {
        proof {
            assert(props@.take(i as int).drop_last() =~= props@.take(i - 1));
            assert(props@.take(i as int).last() == props@[i - 1]);
        }
        if str_eq(props[i - 1].name.as_str(), name) {
            return Some(i - 1);
        }
        i = i - 1;
    }
    None
}

fn lookup_in_groups(groups: &Vec<PropGroup>, gname: &str, pname: &str) -> (r: Option<
    (usize, usize),
>)
    ensures
        match r {
            Some((g, p)) => find_in_groups(groups@, gname@, pname@) == Some((g as int, p as int))
                && g < groups@.len() && p < groups@[g as int].props@.len(),
            None => find_in_groups(groups@, gname@, pname@) is None,
        },
{
    let mut i = groups.len();
    proof {
        assert(groups@.take(groups@.len() as int) =~= groups@);
    }
    while i > 0
        invariant
            i <= groups@.len(),
            find_in_groups(groups@, gname@, pname@) == find_in_groups(
                groups@.take(i as int),
                gname@,
                pname@,
            ),
        decreases i,
    {
        proof {
            assert(groups@.take(i as int).drop_last() =~= groups@.take(i - 1));
            assert(groups@.take(i as int).last() == groups@[i - 1]);
        }
        if str_eq(groups[i - 1].name.as_str(), gname) {
            match lookup_prop_in_props(&groups[i - 1].props, pname) {
                Some(pi) => {
                    return Some((i - 1, pi));
                },
                None => {},
            }
        }
        i = i - 1;
    }
    None
}

/// The group of libraries as abstract values.
pub open spec fn gviews(s: Seq<&ProplibResource>) -> Seq<ProplibResource> {
    s.map_values(|p: &ProplibResource| *p)
}

fn lookup_lib(libs: &Vec<&ProplibResource>, lname: &str, gname: &str, pname: &str) -> (r: Option<
    (usize, usize, usize),
>)
    ensures
        match r {
            Some((l, g, p)) => find_lib(gviews(libs@), lname@, gname@, pname@) == Some(
                (l as int, g as int, p as int),
            ) && l < libs@.len() && (match gviews(libs@)[l as int].library {
                Some(doc) => g < doc.prop_groups@.len() && p
                    < doc.prop_groups@[g as int].props@.len(),
                None => false,
            }),
            None => find_lib(gviews(libs@), lname@, gname@, pname@) is None,
        },
{
    let ghost lviews = gviews(libs@);
    let mut i = libs.len();
    proof {
        assert(lviews.take(lviews.len() as int) =~= lviews);
    }
    while i > 0
        invariant
            i <= libs@.len(),
            lviews == gviews(libs@),
            find_lib(lviews, lname@, gname@, pname@) == find_lib(
                lviews.take(i as int),
                lname@,
                gname@,
                pname@,
            ),
        decreases i,
    {
        proof {
            assert(lviews.take(i as int).drop_last() =~= lviews.take(i - 1));
            assert(lviews.take(i as int).last() == lviews[i - 1]);
        }
        match &libs[i - 1].library {
            Some(doc) => {
                if str_eq(doc.name.as_str(), lname) {
                    match lookup_in_groups(&doc.prop_groups, gname, pname) {
                        Some((gi, pi)) => {
                            return Some((i - 1, gi, pi));
                        },
                        None => {},
                    }
                }
            },
            None => {},
        }
        i = i - 1;
    }
    None
}

proof fn lemma_find_texture_charac(textures: Seq<Texture>, name: Seq<char>)
    ensures
        match find_texture(textures, name) {
            Some(i) => 0 <= i < textures.len() && textures[i].name@ == name && forall|k: int|
                0 <= k < i ==> textures[k].name@ != name,
            None => forall|k: int| 0 <= k < textures.len() ==> textures[k].name@ != name,
        },
    decreases textures.len(),
{
    if textures.len() > 0 {
        lemma_find_texture_charac(textures.drop_first(), name);
        if textures.first().name@ != name {
            match find_texture(textures.drop_first(), name) {
                Some(i) => {
                    assert(textures[i + 1] == textures.drop_first()[i]);
                    assert forall|k: int| 0 <= k < i + 1 implies textures[k].name@ != name by {
                        if k > 0 {
                            assert(textures.drop_first()[k - 1] == textures[k]);
                        }
                    }
                },
                None => {
                    assert forall|k: int| 0 <= k < textures.len() implies textures[k].name@
                        != name by {
                        if k > 0 {
                            assert(textures.drop_first()[k - 1] == textures[k]);
                        }
                    }
                },
            }
        }
    }
}

fn lookup_texture(textures: &Vec<Texture>, name: &str) -> (r: Option<usize>)
    ensures
        match r {
            Some(i) => find_texture(textures@, name@) == Some(i as int) && i < textures@.len(),
            None => find_texture(textures@, name@) is None,
        },
{
    let n = textures.len();
    let mut i: usize = 0;
    while i < n
        invariant
            n == textures@.len(),
            i <= n,
            forall|k: int| 0 <= k < i ==> textures@[k].name@ != name@,
        decreases n - i,
    {
        if str_eq(textures[i].name.as_str(), name) {
            proof {
                lemma_find_texture_charac(textures@, name@);
                match find_texture(textures@, name@) {
                    Some(j) => {
                        if j < i as int {
                            assert(textures@[j].name@ != name@);
                        }
                        if (i as int) < j {
                            assert(textures@[i as int].name@ != name@);
                        }
                    },
                    None => {
                        assert(textures@[i as int].name@ != name@);
                    },
                }
            }
            return Some(i);
        }
        i = i + 1;
    }
    proof {
        lemma_find_texture_charac(textures@, name@);
        match find_texture(textures@, name@) {
            Some(j) => {
                assert(textures@[j].name@ != name@);
            },
            None => {},
        }
    }
    None
}

proof fn lemma_find_image_charac(images: Seq<Image>, want: Seq<char>)
    ensures
        match find_image_ci(images, want) {
            Some(i) => 0 <= i < images.len() && lower_of(images[i].name@) == lower_of(want)
                && forall|k: int| 0 <= k < i ==> lower_of(images[k].name@) != lower_of(want),
            None => forall|k: int|
                0 <= k < images.len() ==> lower_of(images[k].name@) != lower_of(want),
        },
    decreases images.len(),
{
    if images.len() > 0 {
        lemma_find_image_charac(images.drop_first(), want);
        if lower_of(images.first().name@) != lower_of(want) {
            match find_image_ci(images.drop_first(), want) {
                Some(i) => {
                    assert(images[i + 1] == images.drop_first()[i]);
                    assert forall|k: int| 0 <= k < i + 1 implies lower_of(images[k].name@)
                        != lower_of(want) by {
                        if k > 0 {
                            assert(images.drop_first()[k - 1] == images[k]);
                        }
                    }
                },
                None => {
                    assert forall|k: int| 0 <= k < images.len() implies lower_of(images[k].name@)
                        != lower_of(want) by {
                        if k > 0 {
                            assert(images.drop_first()[k - 1] == images[k]);
                        }
                    }
                },
            }
        }
    }
}

fn lookup_image_ci<'a>(images: &'a Vec<Image>, want: &str) -> (r: Option<(usize, &'a Image)>)
    ensures
        match r {
            Some((i, img)) => find_image_ci(images@, want@) == Some(i as int) && i < images@.len()
                && *img == images@[i as int],
            None => find_image_ci(images@, want@) is None,
        },
{
    let lw = to_lowercase(want);
    let n = images.len();
    let mut i: usize = 0;
    while i < n
        invariant
            n == images@.len(),
            i <= n,
            lw@ == lower_of(want@),
            forall|k: int| 0 <= k < i ==> lower_of(images@[k].name@) != lower_of(want@),
        decreases n - i,
    {
        let ln = to_lowercase(images[i].name.as_str());
        if str_eq(ln.as_str(), lw.as_str()) {
            proof {
                lemma_find_image_charac(images@, want@);
                match find_image_ci(images@, want@) {
                    Some(j) => {
                        if j < i as int {
                            assert(lower_of(images@[j].name@) != lower_of(want@));
                        }
                        if (i as int) < j {
                            assert(lower_of(images@[i as int].name@) != lower_of(want@));
                        }
                    },
                    None => {
                        assert(lower_of(images@[i as int].name@) != lower_of(want@));
                    },
                }
            }
            return Some((i, &images[i]));
        }
        i = i + 1;
    }
    proof {
        lemma_find_image_charac(images@, want@);
        match find_image_ci(images@, want@) {
            Some(j) => {
                assert(lower_of(images@[j].name@) != lower_of(want@));
            },
            None => {},
        }
    }
    None
}

fn lookup_mesh_default(meshes: &Vec<(String, Option<String>)>, path: &str) -> (r: Option<
    Option<String>,
>)
    ensures
        match r {
            Some(Some(t)) => find_mesh_default(meshes@, path@) == Some(Some(t@)),
            Some(None) => find_mesh_default(meshes@, path@) == Some(None::<Seq<char>>),
            None => find_mesh_default(meshes@, path@) is None,
        },
{
    let n = meshes.len();
    let mut i: usize = 0;
    proof {
        assert(meshes@.skip(0) =~= meshes@);
    }
    while i < n
        invariant
            n == meshes@.len(),
            i <= n,
            find_mesh_default(meshes@, path@) == find_mesh_default(
                meshes@.skip(i as int),
                path@,
            ),
        decreases n - i,
    {
        proof {
            assert(meshes@.skip(i as int).first() == meshes@[i as int]);
            assert(meshes@.skip(i as int).drop_first() =~= meshes@.skip(i + 1));
        }
        if str_eq(meshes[i].0.as_str(), path) {
            match &meshes[i].1 {
                Some(t) => {
                    return Some(Some(t.clone()));
                },
                None => {
                    return Some(None);
                },
            }
        }
        i = i + 1;
    }
    proof {
        assert(meshes@.skip(n as int) =~= Seq::<(String, Option<String>)>::empty());
    }
    None
}

fn check_images(lib: &ProplibResource, texture_name: &String, diffuse_map: &String, mp: &Prop)
    -> (r: Result<(), ValidationError<String>>)
    ensures
        match r {
            Ok(_) => spec_check_images(*lib, texture_name@, diffuse_map@, *mp) is Ok,
            Err(e) => spec_check_images(*lib, texture_name@, diffuse_map@, *mp) == Err::<(), ValidationError<Seq<char>>>(err_view(e)),
        },
{
    match &lib.images {
        Some(images) => {
            match lookup_image_ci(&images.images, diffuse_map.as_str()) {
                Some((_, img)) => {
                    let target = crate::path::path_join(lib.root.as_str(), img.diffuse.as_str());
                    match file_exists_case_insensitive(&lib.tree, target.as_str()) {
                        Some(_) => {
                            match &img.alpha {
                                Some(alpha) => {
                                    let atarget = crate::path::path_join(
                                        lib.root.as_str(),
                                        alpha.as_str(),
                                    );
                                    match file_exists_case_insensitive(
                                        &lib.tree,
                                        atarget.as_str(),
                                    ) {
                                        Some(_) => Ok(()),
                                        None => Err(
                                            ValidationError::AlphaMissing {
                                                library: mp.library_name.clone(),
                                                group: mp.group_name.clone(),
                                                prop: mp.name.clone(),
                                                file: alpha.clone(),
                                            },
                                        ),
                                    }
                                },
                                None => Ok(()),
                            }
                        },
                        None => Err(
                            ValidationError::DiffuseMissing {
                                library: mp.library_name.clone(),
                                group: mp.group_name.clone(),
                                prop: mp.name.clone(),
                                file: img.diffuse.clone(),
                            },
                        ),
                    }
                },
                None => Err(
                    ValidationError::TextureMappingMissing {
                        library: mp.library_name.clone(),
                        group: mp.group_name.clone(),
                        prop: mp.name.clone(),
                        texture: texture_name.clone(),
                    },
                ),
            }
        },
        None => {
            let target = crate::path::path_join(lib.root.as_str(), diffuse_map.as_str());
            match file_exists_case_insensitive(&lib.tree, target.as_str()) {
                Some(_) => Ok(()),
                None => Err(
                    ValidationError::DiffuseMissing {
                        library: mp.library_name.clone(),
                        group: mp.group_name.clone(),
                        prop: mp.name.clone(),
                        file: diffuse_map.clone(),
                    },
                ),
            }
        },
    }
}

fn check_mesh(
    lib: &ProplibResource,
    mesh: &Mesh,
    mp: &Prop,
    meshes: &Vec<(String, Option<String>)>,
) -> (r: Result<(), ValidationError<String>>)
    ensures
        match r {
            Ok(_) => spec_check_mesh(*lib, *mesh, *mp, meshes@) is Ok,
            Err(e) => spec_check_mesh(*lib, *mesh, *mp, meshes@) == Err::<(), ValidationError<Seq<char>>>(err_view(e)),
        },
{
    if mp.texture_name.as_str().unicode_len() > 0 {
        match lookup_texture(&mesh.textures, mp.texture_name.as_str()) {
            Some(ti) => check_images(
                lib,
                &mesh.textures[ti].name,
                &mesh.textures[ti].diffuse_map,
                mp,
            ),
            None => Err(
                ValidationError::TextureNotFound {
                    library: mp.library_name.clone(),
                    group: mp.group_name.clone(),
                    prop: mp.name.clone(),
                    texture: mp.texture_name.clone(),
                },
            ),
        }
    } else {
        let target = crate::path::path_join(lib.root.as_str(), mesh.file.as_str());
        match file_exists_case_insensitive(&lib.tree, target.as_str()) {
            Some(found) => {
                match lookup_mesh_default(meshes, found.as_str()) {
                    Some(Some(tex)) => check_images(lib, &tex, &tex, mp),
                    Some(None) => Err(
                        ValidationError::NoDefaultTexture {
                            library: mp.library_name.clone(),
                            group: mp.group_name.clone(),
                            prop: mp.name.clone(),
                            file: mesh.file.clone(),
                        },
                    ),
                    None => Err(
                        ValidationError::MeshNotParsed {
                            library: mp.library_name.clone(),
                            group: mp.group_name.clone(),
                            prop: mp.name.clone(),
                            file: mesh.file.clone(),
                        },
                    ),
                }
            },
            None => Err(
                ValidationError::MeshFileMissing {
                    library: mp.library_name.clone(),
                    group: mp.group_name.clone(),
                    prop: mp.name.clone(),
                    file: mesh.file.clone(),
                },
            ),
        }
    }
}

fn check_sprite(lib: &ProplibResource, sprite: &Sprite, mp: &Prop) -> (r: Result<
    (),
    ValidationError<String>,
>)
    ensures
        match r {
            Ok(_) => spec_check_sprite(*lib, *sprite, *mp) is Ok,
            Err(e) => spec_check_sprite(*lib, *sprite, *mp) == Err::<(), ValidationError<Seq<char>>>(err_view(e)),
        },
{
    match &lib.images {
        Some(images) => {
            match lookup_image_ci(&images.images, sprite.file.as_str()) {
                Some((_, img)) => {
                    let target = crate::path::path_join(lib.root.as_str(), img.diffuse.as_str());
                    match file_exists_case_insensitive(&lib.tree, target.as_str()) {
                        Some(_) => {
                            match &img.alpha {
                                Some(alpha) => {
                                    let atarget = crate::path::path_join(
                                        lib.root.as_str(),
                                        alpha.as_str(),
                                    );
                                    match file_exists_case_insensitive(
                                        &lib.tree,
                                        atarget.as_str(),
                                    ) {
                                        Some(_) => Ok(()),
                                        None => Err(
                                            ValidationError::AlphaMissing {
                                                library: mp.library_name.clone(),
                                                group: mp.group_name.clone(),
                                                prop: mp.name.clone(),
                                                file: alpha.clone(),
                                            },
                                        ),
                                    }
                                },
                                None => Ok(()),
                            }
                        },
                        None => Err(
                            ValidationError::DiffuseMissing {
                                library: mp.library_name.clone(),
                                group: mp.group_name.clone(),
                                prop: mp.name.clone(),
                                file: img.diffuse.clone(),
                            },
                        ),
                    }
                },
                None => Err(
                    ValidationError::SpriteMappingMissing {
                        library: mp.library_name.clone(),
                        group: mp.group_name.clone(),
                        prop: mp.name.clone(),
                        sprite: sprite.file.clone(),
                    },
                ),
            }
        },
        None => {
            let target = crate::path::path_join(lib.root.as_str(), sprite.file.as_str());
            match file_exists_case_insensitive(&lib.tree, target.as_str()) {
                Some(_) => Ok(()),
                None => Err(
                    ValidationError::SpriteFileMissing {
                        library: mp.library_name.clone(),
                        group: mp.group_name.clone(),
                        prop: mp.name.clone(),
                        file: sprite.file.clone(),
                    },
                ),
            }
        },
    }
}

fn check_placement(
    group: &Vec<&ProplibResource>,
    meshes: &Vec<(String, Option<String>)>,
    mp: &Prop,
) -> (r: Result<(), ValidationError<String>>)
    ensures
        match r {
            Ok(_) => spec_check_placement(gviews(group@), meshes@, *mp) is Ok,
            Err(e) => spec_check_placement(gviews(group@), meshes@, *mp) == Err::<(), ValidationError<Seq<char>>>(err_view(e)),
        },
{
    match lookup_lib(
        group,
        mp.library_name.as_str(),
        mp.group_name.as_str(),
        mp.name.as_str(),
    ) {
        Some((li, gi, pi)) => {
            let lib = group[li];
            match &lib.library {
                Some(doc) => {
                    let prop = &doc.prop_groups[gi].props[pi];
                    match &prop.mesh {
                        Some(mesh) => check_mesh(lib, mesh, mp, meshes),
                        None => match &prop.sprite {
                            Some(sprite) => check_sprite(lib, sprite, mp),
                            None => Err(
                                ValidationError::InvalidProp {
                                    library: mp.library_name.clone(),
                                    group: mp.group_name.clone(),
                                    prop: mp.name.clone(),
                                },
                            ),
                        },
                    }
                },
                None => Err(
                    ValidationError::PropNotFound {
                        library: mp.library_name.clone(),
                        group: mp.group_name.clone(),
                        prop: mp.name.clone(),
                    },
                ),
            }
        },
        None => Err(
            ValidationError::PropNotFound {
                library: mp.library_name.clone(),
                group: mp.group_name.clone(),
                prop: mp.name.clone(),
            },
        ),
    }
}

fn tuple_in_checked(checked: &Vec<(String, String, String, String)>, mp: &Prop) -> (r: bool)
    ensures
        r ==> exists|c: int|
            0 <= c < checked@.len() && (#[trigger] checked@[c]).0@ == mp.library_name@
                && checked@[c].1@ == mp.group_name@ && checked@[c].2@ == mp.name@
                && checked@[c].3@ == mp.texture_name@,
{
    let n = checked.len();
    let mut i: usize = 0;
    while i < n
        invariant
            n == checked@.len(),
            i <= n,
        decreases n - i,
    {
        if str_eq(checked[i].0.as_str(), mp.library_name.as_str()) && str_eq(
            checked[i].1.as_str(),
            mp.group_name.as_str(),
        ) && str_eq(checked[i].2.as_str(), mp.name.as_str()) && str_eq(
            checked[i].3.as_str(),
            mp.texture_name.as_str(),
        ) {
            proof {
                assert((#[trigger] checked@[i as int]).0@ == mp.library_name@);
            }
            return true;
        }
        i = i + 1;
    }
    false
}

/// Checks every prop placement of a map's static geometry against one
/// namespace group of libraries; a placement already checked under the
/// same four names is not checked again.
pub fn validate_static_geometry(
    group: &Vec<&ProplibResource>,
    meshes: &Vec<(String, Option<String>)>,
    props: &Vec<Prop>,
) -> (r: Result<(), ValidationError<String>>)
    ensures
        match r {
            Ok(_) => spec_validate(gviews(group@), meshes@, props@) is Ok,
            Err(e) => spec_validate(gviews(group@), meshes@, props@) == Err::<(), ValidationError<Seq<char>>>(err_view(e)),
        },
{
    let ghost libs = gviews(group@);
    let n = props.len();
    let mut checked: Vec<(String, String, String, String)> = Vec::new();
    let mut j: usize = 0;
    proof {
        assert(props@.skip(0) =~= props@);
    }
    while j < n
        invariant
            n == props@.len(),
            j <= n,
            libs == gviews(group@),
            spec_validate(libs, meshes@, props@) == spec_validate(
                libs,
                meshes@,
                props@.skip(j as int),
            ),
            forall|c: int|
                0 <= c < checked@.len() ==> spec_check_placement(
                    libs,
                    meshes@,
                    (Prop {
                        library_name: (#[trigger] checked@[c]).0,
                        group_name: checked@[c].1,
                        name: checked@[c].2,
                        texture_name: checked@[c].3,
                    }),
                ) is Ok,
        decreases n - j,
    {
        proof {
            assert(props@.skip(j as int).first() == props@[j as int]);
            assert(props@.skip(j as int).drop_first() =~= props@.skip(j + 1));
        }
        if tuple_in_checked(&checked, &props[j]) {
            proof {
                let c = choose|c: int|
                    0 <= c < checked@.len() && (#[trigger] checked@[c]).0@
                        == props@[j as int].library_name@ && checked@[c].1@
                        == props@[j as int].group_name@ && checked@[c].2@ == props@[j as int].name@
                        && checked@[c].3@ == props@[j as int].texture_name@;
                lemma_check_placement_extensional(
                    libs,
                    meshes@,
                    Prop {
                        library_name: checked@[c].0,
                        group_name: checked@[c].1,
                        name: checked@[c].2,
                        texture_name: checked@[c].3,
                    },
                    props@[j as int],
                );
            }
        } else {
            match check_placement(group, meshes, &props[j]) {
                Ok(_) => {
                    let entry = (
                        props[j].library_name.clone(),
                        props[j].group_name.clone(),
                        props[j].name.clone(),
                        props[j].texture_name.clone(),
                    );
                    let ghost gentry = entry;
                    checked.push(entry);
                    proof {
                        assert(checked@.drop_last() =~= checked@.take(checked@.len() - 1));
                        lemma_check_placement_extensional(
                            libs,
                            meshes@,
                            Prop {
                                library_name: gentry.0,
                                group_name: gentry.1,
                                name: gentry.2,
                                texture_name: gentry.3,
                            },
                            props@[j as int],
                        );
                    }
                },
                Err(e) => {
                    return Err(e);
                },
            }
        }
        j = j + 1;
    }
    proof {
        assert(props@.skip(n as int) =~= Seq::<Prop>::empty());
    }
    Ok(())
}

/// The namespace a discovered resource carries, when it is a prop library
/// with a bound identity.
pub open spec fn res_ns(d: ResourceDefinition) -> Option<Map<Seq<char>, Seq<char>>> {
    match d {
        ResourceDefinition::Proplib(p) => match p.info {
            Some(info) => Some(info.namespaces@),
            None => None,
        },
        _ => None,
    }
}

/// Some discovered prop library carries this namespace combination.
pub open spec fn spec_combo_of(
    resources: Seq<ResourceDefinition>,
    c: Map<Seq<char>, Seq<char>>,
) -> bool {
    exists|i: int| 0 <= i < resources.len() && res_ns(#[trigger] resources[i]) == Some(c)
}

/// The prop libraries of one namespace combination, in discovery order.
pub open spec fn spec_group(
    resources: Seq<ResourceDefinition>,
    c: Map<Seq<char>, Seq<char>>,
) -> Seq<ProplibResource>
    decreases resources.len(),
{
    if resources.len() == 0 {
        Seq::empty()
    } else {
        let rest = spec_group(resources.drop_last(), c);
        match resources.last() {
            ResourceDefinition::Proplib(p) => match p.info {
                Some(info) => if info.namespaces@ == c {
                    rest.push(p)
                } else {
                    rest
                },
                None => rest,
            },
            _ => rest,
        }
    }
}

/// The combination carries the generation and theme keys validation
/// requires at minimum.
pub open spec fn has_gen_theme(c: Map<Seq<char>, Seq<char>>) -> bool {
    c.contains_key(("gen")@) && c.contains_key(("theme")@)
}

fn combos_contains(combos: &Vec<Namespace>, ns: &Namespace) -> (r: bool)
    ensures
        r == exists|k: int| 0 <= k < combos@.len() && (#[trigger] combos@[k])@ == ns@,
{
    let n = combos.len();
    let mut i: usize = 0;
    while i < n
        invariant
            n == combos@.len(),
            i <= n,
            forall|k: int| 0 <= k < i ==> (#[trigger] combos@[k])@ != ns@,
        decreases n - i,
    {
        if combos[i].same_as(ns) {
            proof {
                assert((#[trigger] combos@[i as int])@ == ns@);
            }
            return true;
        }
        i = i + 1;
    }
    false
}

fn gather_group<'a>(resources: &'a Vec<ResourceDefinition>, c: &Namespace) -> (r: Vec<
    &'a ProplibResource,
>)
    ensures
        gviews(r@) == spec_group(resources@, c@),
{
    let ghost rviews = resources@;
    let n = resources.len();
    let mut group: Vec<&'a ProplibResource> = Vec::new();
    proof {
        assert(gviews(group@) =~= spec_group(rviews.take(0int), c@));
    }
    let mut i: usize = 0;
    while i < n
        invariant
            n == resources@.len(),
            rviews == resources@,
            i <= n,
            gviews(group@) == spec_group(rviews.take(i as int), c@),
        decreases n - i,
    {
        proof {
            assert(rviews.take(i + 1).drop_last() =~= rviews.take(i as int));
            assert(rviews.take(i + 1).last() == rviews[i as int]);
        }
        match &resources[i] {
            ResourceDefinition::Proplib(p) => {
                match &p.info {
                    Some(info) => {
                        if c.same_as(&info.namespaces) {
                            let ghost before = group@;
                            group.push(p);
                            proof {
                                assert(gviews(group@) =~= gviews(before).push(*p));
                            }
                        }
                    },
                    None => {},
                }
            },
            _ => {},
        }
        i = i + 1;
    }
    proof {
        assert(rviews.take(n as int) =~= rviews);
    }
    group
}

impl MapResource {
    /// Validates this map's prop placements against every namespace
    /// combination of discovered prop libraries that covers the map's own
    /// namespace.  A combination without both the generation and theme
    /// keys is skipped and reported, not validated; the first fatal
    /// finding of any validated combination aborts the pass.
    pub fn validate_props(
        &self,
        resources: &Vec<ResourceDefinition>,
        meshes: &Vec<(String, Option<String>)>,
    ) -> (r: Result<Vec<Namespace>, ValidationError<String>>)
        requires
            self.parsed is Some,
            self.info is Some,
        ensures
            match r {
                Ok(skipped) => (forall|c: Map<Seq<char>, Seq<char>>|
                    spec_combo_of(resources@, c) && has_gen_theme(c) && map_ns_of(
                        self.info,
                    ).submap_of(c) ==> spec_validate(
                        spec_group(resources@, c),
                        meshes@,
                        self.parsed->Some_0.props@,
                    ) is Ok) && (forall|k: int|
                    0 <= k < skipped@.len() ==> spec_combo_of(
                        resources@,
                        (#[trigger] skipped@[k])@,
                    ) && !has_gen_theme(skipped@[k]@)),
                Err(e) => exists|c: Map<Seq<char>, Seq<char>>|
                    spec_combo_of(resources@, c) && has_gen_theme(c) && map_ns_of(
                        self.info,
                    ).submap_of(c) && spec_validate(
                        spec_group(resources@, c),
                        meshes@,
                        self.parsed->Some_0.props@,
                    ) == Err::<(), ValidationError<Seq<char>>>(err_view(e)),
            },
    {
        let ghost map_ns = map_ns_of(self.info);
        let ghost props = self.parsed->Some_0.props@;
        let geometry = match &self.parsed {
            Some(g) => g,
            None => {
                proof {
                    assert(false);
                }
                return Ok(Vec::new());
            },
        };
        let my_info = match &self.info {
            Some(info) => info,
            None => {
                proof {
                    assert(false);
                }
                return Ok(Vec::new());
            },
        };
        // collect the distinct namespace combinations of the libraries
        let n = resources.len();
        let mut combos: Vec<Namespace> = Vec::new();
        let mut i: usize = 0;
        while i < n
            invariant
                n == resources@.len(),
                i <= n,
                forall|k: int|
                    0 <= k < combos@.len() ==> spec_combo_of(
                        resources@,
                        (#[trigger] combos@[k])@,
                    ),
                forall|ii: int|
                    0 <= ii < i ==> match res_ns(#[trigger] resources@[ii]) {
                        Some(ns) => exists|k: int|
                            0 <= k < combos@.len() && (#[trigger] combos@[k])@ == ns,
                        None => true,
                    },
            decreases n - i,
        {
            match &resources[i] {
                ResourceDefinition::Proplib(p) => {
                    match &p.info {
                        Some(info) => {
                            if !combos_contains(&combos, &info.namespaces) {
                                let ghost before = combos@;
                                combos.push(info.namespaces.duplicate());
                                proof {
                                    assert(res_ns(resources@[i as int]) == Some(
                                        info.namespaces@,
                                    ));
                                    assert(combos@[before.len() as int]@ == info.namespaces@);
                                    assert(forall|k: int|
                                        0 <= k < before.len() ==> combos@[k] == before[k]);
                                }
                            }
                        },
                        None => {},
                    }
                },
                _ => {},
            }
            i = i + 1;
        }
        // validate each combination this map uses
        let mut skipped: Vec<Namespace> = Vec::new();
        let m = combos.len();
        let mut ci: usize = 0;
        while ci < m
            invariant
                m == combos@.len(),
                geometry.props@ == props,
                map_ns == my_info.namespaces@,
                map_ns == map_ns_of(self.info),
                self.parsed is Some && props == self.parsed->Some_0.props@,
                forall|k: int|
                    0 <= k < combos@.len() ==> spec_combo_of(
                        resources@,
                        (#[trigger] combos@[k])@,
                    ),
                forall|ii: int|
                    0 <= ii < resources@.len() ==> match res_ns(#[trigger] resources@[ii]) {
                        Some(ns) => exists|k: int|
                            0 <= k < combos@.len() && (#[trigger] combos@[k])@ == ns,
                        None => true,
                    },
                ci <= m,
                forall|k: int|
                    0 <= k < ci && has_gen_theme((#[trigger] combos@[k])@) && map_ns.submap_of(
                        combos@[k]@,
                    ) ==> spec_validate(spec_group(resources@, combos@[k]@), meshes@, props)
                        is Ok,
                forall|k: int|
                    0 <= k < skipped@.len() ==> spec_combo_of(
                        resources@,
                        (#[trigger] skipped@[k])@,
                    ) && !has_gen_theme(skipped@[k]@),
            decreases m - ci,
        {
            let c = &combos[ci];
            if !(c.contains_key("gen") && c.contains_key("theme")) {
                let ghost before = skipped@;
                skipped.push(c.duplicate());
                proof {
                    assert(forall|k: int| 0 <= k < before.len() ==> skipped@[k] == before[k]);
                    assert(skipped@[before.len() as int]@ == combos@[ci as int]@);
                }
            } else if my_info.namespaces.covered_by(c) {
                let group = gather_group(resources, c);
                match validate_static_geometry(&group, meshes, &geometry.props) {
                    Ok(_) => {},
                    Err(e) => {
                        proof {
                            assert(spec_combo_of(resources@, combos@[ci as int]@)
                                && has_gen_theme(combos@[ci as int]@) && map_ns.submap_of(
                                combos@[ci as int]@,
                            ) && spec_validate(
                                spec_group(resources@, combos@[ci as int]@),
                                meshes@,
                                props,
                            ) == Err::<(), ValidationError<Seq<char>>>(err_view(e)));
                        }
                        return Err(e);
                    },
                }
            }
            ci = ci + 1;
        }
        proof {
            assert forall|c: Map<Seq<char>, Seq<char>>|
                spec_combo_of(resources@, c) && has_gen_theme(c) && map_ns.submap_of(
                    c,
                ) implies spec_validate(spec_group(resources@, c), meshes@, props) is Ok by {
                let ii = choose|ii: int|
                    0 <= ii < resources@.len() && res_ns(#[trigger] resources@[ii]) == Some(c);
                let k = choose|k: int| 0 <= k < combos@.len() && (#[trigger] combos@[k])@ == c;
                assert(spec_validate(spec_group(resources@, combos@[k]@), meshes@, props) is Ok);
            }
        }
        Ok(skipped)
    }
}

/// A placement of a mesh prop that names no texture, whose mesh file was
/// read and embeds no default texture map, fails validation with a finding
/// that names exactly that prop.
pub proof fn lemma_missing_default_texture_fails(
    libs: Seq<ProplibResource>,
    meshes: Seq<(String, Option<String>)>,
    mp: Prop,
    li: int,
    gi: int,
    pi: int,
    found: Seq<char>,
)
    requires
        find_lib(libs, mp.library_name@, mp.group_name@, mp.name@) == Some((li, gi, pi)),
        0 <= li < libs.len(),
        libs[li].library is Some,
        ({
            let doc = libs[li].library->Some_0;
            &&& 0 <= gi < doc.prop_groups@.len()
            &&& 0 <= pi < doc.prop_groups@[gi].props@.len()
            &&& doc.prop_groups@[gi].props@[pi].mesh is Some
            &&& spec_probe(
                tree_views(libs[li]),
                spec_path_join(libs[li].root@, doc.prop_groups@[gi].props@[pi].mesh->Some_0.file@),
            ) == Some(found)
        }),
        mp.texture_name@.len() == 0,
        find_mesh_default(meshes, found) == Some(None::<Seq<char>>),
    ensures
        spec_check_placement(libs, meshes, mp) == Err::<(), ValidationError<Seq<char>>>(
            ValidationError::NoDefaultTexture {
                library: mp.library_name@,
                group: mp.group_name@,
                prop: mp.name@,
                file: libs[li].library->Some_0.prop_groups@[gi].props@[pi].mesh->Some_0.file@,
            },
        ),
{
}

} // verus!
