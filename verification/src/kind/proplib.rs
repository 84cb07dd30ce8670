use vstd::prelude::*;

use crate::kind::{rename_to_file_names, spec_tree_inputs, tree_input_files, Resource,
    ResourceInfo};

verus! {

/// The declaration at the head of a library manifest: the library's
/// declared name.
#[derive(Clone)]
pub struct LibraryXml {
    pub name: String,
}

/// A library manifest: the declared name and the prop groups it offers.
#[derive(Clone)]
pub struct Library {
    pub name: String,
    pub prop_groups: Vec<PropGroup>,
}

/// A named group of props within a library.
#[derive(Clone)]
pub struct PropGroup {
    pub name: String,
    pub props: Vec<Prop>,
}

/// One placeable prop: it carries a mesh or a sprite.
#[derive(Clone)]
pub struct Prop {
    pub name: String,
    pub mesh: Option<Mesh>,
    pub sprite: Option<Sprite>,
}

/// A sprite prop's image file reference.
#[derive(Clone)]
pub struct Sprite {
    pub file: String,
}

/// A mesh prop: its binary mesh file and its declared texture bindings.
#[derive(Clone)]
pub struct Mesh {
    pub file: String,
    pub textures: Vec<Texture>,
}

/// One declared texture binding of a mesh.
#[derive(Clone)]
pub struct Texture {
    pub name: String,
    pub diffuse_map: String,
}

/// A library's image-name remapping manifest.
#[derive(Clone)]
pub struct Images {
    pub images: Vec<Image>,
}

/// One image remapping: a texture name, the diffuse file it maps to, and
/// an optional alpha file.
#[derive(Clone)]
pub struct Image {
    pub name: String,
    pub diffuse: String,
    pub alpha: Option<String>,
}

/// A shared library of placeable props: its declared name, its parsed
/// manifests, and the file tree under its root, all of which the bundle
/// packs into one archive.
#[derive(Clone)]
pub struct ProplibResource {
    pub root: String,
    pub info: Option<ResourceInfo>,
    pub name: Option<String>,
    pub namespace: Option<String>,
    pub library: Option<Library>,
    pub images: Option<Images>,
    pub tree: Vec<String>,
}

/// A fatal finding of the per-library image check: an image remapping
/// whose diffuse or alpha file is missing under the root.
#[derive(Clone, Debug)]
pub enum ImageCheckError<S> {
    DiffuseMissing { texture: S, file: S },
    AlphaMissing { texture: S, file: S },
}

/// The abstract form of an image-check finding.
pub open spec fn image_err_view(e: ImageCheckError<String>) -> ImageCheckError<Seq<char>> {
    match e {
        ImageCheckError::DiffuseMissing { texture, file } => ImageCheckError::DiffuseMissing {
            texture: texture@,
            file: file@,
        },
        ImageCheckError::AlphaMissing { texture, file } => ImageCheckError::AlphaMissing {
            texture: texture@,
            file: file@,
        },
    }
}

/// Checks one run of image remappings against the library root: the first
/// entry whose diffuse or alpha file no listed file answers for, if any.
pub open spec fn spec_check_images_list(lib: ProplibResource, images: Seq<Image>) -> Result<
    (),
    ImageCheckError<Seq<char>>,
>
    decreases images.len(),
{
    if images.len() == 0 {
        Ok(())
    } else {
        let img = images.first();
        if crate::probe::spec_probe(
            lib.tree@.map_values(|p: String| p@),
            crate::path::spec_path_join(lib.root@, img.diffuse@),
        ) is None {
            Err(ImageCheckError::DiffuseMissing { texture: img.name@, file: img.diffuse@ })
        } else {
            match img.alpha {
                Some(alpha) => if crate::probe::spec_probe(
                    lib.tree@.map_values(|p: String| p@),
                    crate::path::spec_path_join(lib.root@, alpha@),
                ) is None {
                    Err(ImageCheckError::AlphaMissing { texture: img.name@, file: alpha@ })
                } else {
                    spec_check_images_list(lib, images.drop_first())
                },
                None => spec_check_images_list(lib, images.drop_first()),
            }
        }
    }
}

/// What the per-library image check finds: the manifest's first failing
/// entry, or nothing for a library without a manifest.
pub open spec fn spec_check_library_images(lib: ProplibResource) -> Result<
    (),
    ImageCheckError<Seq<char>>,
> {
    match lib.images {
        Some(images) => spec_check_images_list(lib, images.images@),
        None => Ok(()),
    }
}

impl Resource for ProplibResource {
    open spec fn root_view(&self) -> Seq<char> {
        self.root@
    }

    open spec fn info_view(&self) -> Option<ResourceInfo> {
        self.info
    }

    open spec fn spec_input_files(&self) -> Seq<Seq<char>> {
        spec_tree_inputs(self.tree@.map_values(|p: String| p@))
    }

    fn init_root(&mut self, root: String) {
        self.root = root;
    }

    fn init(&mut self, info: ResourceInfo) {
        self.info = Some(info);
    }

    fn get_root(&self) -> (r: String) {
        self.root.clone()
    }

    fn get_info(&self) -> (r: &Option<ResourceInfo>) {
        &self.info
    }

    fn input_files(&self) -> (r: Vec<String>) {
        tree_input_files(&self.tree)
    }
}

impl ProplibResource {
    /// Binds the walked file tree below the root.
    pub fn set_tree(&mut self, tree: Vec<String>)
        ensures
            final(self).tree == tree,
            *final(self) == (ProplibResource { tree, ..*old(self) }),
    {
        self.tree = tree;
    }

    /// Binds the declared name read from the library manifest, as identity
    /// binding does for this kind.
    pub fn init_manifest(&mut self, doc: LibraryXml)
        ensures
            *final(self) == (ProplibResource { name: Some(doc.name), ..*old(self) }),
    {
        self.name = Some(doc.name);
    }

    /// Binds the fully parsed library manifest.
    pub fn bind_library(&mut self, library: Library)
        ensures
            *final(self) == (ProplibResource { library: Some(library), ..*old(self) }),
    {
        self.library = Some(library);
    }

    /// Binds the image remapping manifest.
    pub fn bind_images(&mut self, images: Images)
        ensures
            *final(self) == (ProplibResource { images: Some(images), ..*old(self) }),
    {
        self.images = Some(images);
    }

    /// Checks that every entry of the image remapping manifest points at
    /// existing files under the root; the first failing entry is the
    /// result.  A library without such a manifest passes.
    pub fn validate_images(&self) -> (r: Result<(), ImageCheckError<String>>)
        ensures
            match r {
                Ok(_) => spec_check_library_images(*self) is Ok,
                Err(e) => spec_check_library_images(*self) == Err::<(), ImageCheckError<Seq<char>>>(
                    image_err_view(e),
                ),
            },
    {
        let images = match &self.images {
            Some(images) => images,
            None => {
                return Ok(());
            },
        };
        let n = images.images.len();
        let mut i: usize = 0;
        proof {
            assert(images.images@.skip(0) =~= images.images@);
        }
        while i < n
            invariant
                self.images == Some(*images),
                n == images.images@.len(),
                i <= n,
                spec_check_images_list(*self, images.images@) == spec_check_images_list(
                    *self,
                    images.images@.skip(i as int),
                ),
            decreases n - i,
        {
            proof {
                assert(images.images@.skip(i as int).first() == images.images@[i as int]);
                assert(images.images@.skip(i as int).drop_first() =~= images.images@.skip(i + 1));
            }
            let img = &images.images[i];
            let target = crate::path::path_join(self.root.as_str(), img.diffuse.as_str());
            match crate::probe::file_exists_case_insensitive(&self.tree, target.as_str()) {
                Some(_) => {},
                None => {
                    return Err(
                        ImageCheckError::DiffuseMissing {
                            texture: img.name.clone(),
                            file: img.diffuse.clone(),
                        },
                    );
                },
            }
            match &img.alpha {
                Some(alpha) => {
                    let atarget = crate::path::path_join(self.root.as_str(), alpha.as_str());
                    match crate::probe::file_exists_case_insensitive(&self.tree, atarget.as_str()) {
                        Some(_) => {},
                        None => {
                            return Err(
                                ImageCheckError::AlphaMissing {
                                    texture: img.name.clone(),
                                    file: alpha.clone(),
                                },
                            );
                        },
                    }
                },
                None => {},
            }
            i = i + 1;
        }
        proof {
            assert(images.images@.skip(n as int) =~= Seq::<Image>::empty());
        }
        Ok(())
    }

    /// The bundle's single output: an archive of every file under the
    /// root, each under its bare file name, packed as `library.tara`.
    pub fn output_files(&self, files: Vec<(String, Vec<u8>)>) -> (r: (String, Vec<(
        String,
        Vec<u8>,
    )>))
        ensures
            r.0@ == ("library.tara")@,
            r.1@.len() == files@.len(),
            forall|i: int|
                0 <= i < files@.len() ==> (#[trigger] r.1@[i]).0@ == crate::path::spec_file_name(
                    files@[i].0@,
                ) && r.1@[i].1@ == files@[i].1@,
    {
        ("library.tara".to_owned(), rename_to_file_names(files))
    }
}

} // verus!
