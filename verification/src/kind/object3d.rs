use vstd::prelude::*;

use crate::kind::{asset_path, opt_view, spec_asset_path, Resource, ResourceInfo};
use crate::path::{path_join, spec_file_name, spec_path_join};

verus! {

/// The image manifest a 3D object bundle carries.
#[derive(Clone)]
pub struct ImagesXml {
    pub images: Vec<ImageXml>,
}

/// One manifest entry: a texture name and the file names of its diffuse
/// and optional alpha image.
#[derive(Clone)]
pub struct ImageXml {
    pub name: String,
    pub diffuse: String,
    pub alpha: Option<String>,
}

/// An image reference of a 3D object: a bare diffuse file, or a diffuse
/// and alpha pair.
#[derive(Clone)]
pub enum Object3DImage {
    Simple(String),
    Complex { diffuse: String, alpha: String },
}

/// A 3D object: its mesh file, its named image references, and an
/// optional forced id that takes precedence over the derived one.
#[derive(Clone)]
pub struct Object3DResource {
    pub root: String,
    pub info: Option<ResourceInfo>,
    pub id: Option<u32>,
    pub object: Option<String>,
    pub images: Vec<(String, Object3DImage)>,
}

/// The files an image reference contributes to version hashing, joined
/// under the root.
pub open spec fn spec_image_files(root: Seq<char>, image: Object3DImage) -> Seq<Seq<char>> {
    match image {
        Object3DImage::Simple(diffuse) => seq![spec_path_join(root, diffuse@)],
        Object3DImage::Complex { diffuse, alpha } => seq![
            spec_path_join(root, diffuse@),
            spec_path_join(root, alpha@),
        ],
    }
}

/// The input files of a 3D object: the object file, then every referenced
/// image in reference order.
pub open spec fn spec_object3d_inputs(
    root: Seq<char>,
    object: Option<Seq<char>>,
    images: Seq<(String, Object3DImage)>,
) -> Seq<Seq<char>>
    decreases images.len(),
{
    if images.len() == 0 {
        seq![spec_asset_path(root, object, ("object.3ds")@)]
    } else {
        spec_object3d_inputs(root, object, images.drop_last()) + spec_image_files(
            root,
            images.last().1,
        )
    }
}

/// The manifest row an image reference renders to: the bare file names of
/// its diffuse and optional alpha image.
pub open spec fn spec_image_row(e: (String, Object3DImage)) -> (Seq<char>, Seq<char>, Option<
    Seq<char>,
>) {
    match e.1 {
        Object3DImage::Simple(diffuse) => (e.0@, spec_file_name(diffuse@), None),
        Object3DImage::Complex { diffuse, alpha } => (
            e.0@,
            spec_file_name(diffuse@),
            Some(spec_file_name(alpha@)),
        ),
    }
}

impl Resource for Object3DResource {
    open spec fn root_view(&self) -> Seq<char> {
        self.root@
    }

    open spec fn info_view(&self) -> Option<ResourceInfo> {
        self.info
    }

    open spec fn spec_input_files(&self) -> Seq<Seq<char>> {
        spec_object3d_inputs(self.root@, opt_view(self.object), self.images@)
    }

    fn init_root(&mut self, root: String) {
        self.root = root;
    }

    fn init(&mut self, info: ResourceInfo) {
        self.info = Some(info);
    }

    fn get_root(&self) -> (r: String) {
        self.root.clone()
    }

    fn get_info(&self) -> (r: &Option<ResourceInfo>) {
        &self.info
    }

    fn input_files(&self) -> (r: Vec<String>) {
        let mut v: Vec<String> = Vec::new();
        v.push(self.get_object());
        let n = self.images.len();
        let mut i: usize = 0;
        proof {
            assert(v@.map_values(|p: String| p@) =~= spec_object3d_inputs(
                self.root@,
                opt_view(self.object),
                self.images@.take(0int),
            ));
        }
        while i < n
            invariant
                n == self.images@.len(),
                i <= n,
                v@.map_values(|p: String| p@) =~= spec_object3d_inputs(
                    self.root@,
                    opt_view(self.object),
                    self.images@.take(i as int),
                ),
            decreases n - i,
        {
            proof {
                assert(self.images@.take(i + 1).drop_last() =~= self.images@.take(i as int));
                assert(self.images@.take(i + 1).last() == self.images@[i as int]);
            }
            let ghost before = v@;
            match &self.images[i].1 {
                Object3DImage::Simple(diffuse) => {
                    v.push(path_join(self.root.as_str(), diffuse.as_str()));
                    proof {
                        assert(v@.map_values(|p: String| p@) =~= before.map_values(
                            |p: String| p@,
                        ) + spec_image_files(self.root@, self.images@[i as int].1));
                    }
                },
                Object3DImage::Complex { diffuse, alpha } => {
                    v.push(path_join(self.root.as_str(), diffuse.as_str()));
                    v.push(path_join(self.root.as_str(), alpha.as_str()));
                    proof {
                        assert(v@.map_values(|p: String| p@) =~= before.map_values(
                            |p: String| p@,
                        ) + spec_image_files(self.root@, self.images@[i as int].1));
                    }
                },
            }
            i = i + 1;
        }
        proof {
            assert(self.images@.take(n as int) =~= self.images@);
        }
        v
    }
}

impl Object3DResource {
    /// The mesh file this resource packs: the configured file, or
    /// `object.3ds` under the root.
    pub fn get_object(&self) -> (r: String)
        ensures
            r@ == spec_asset_path(self.root@, opt_view(self.object), ("object.3ds")@),
    {
        asset_path(&self.root, &self.object, "object.3ds")
    }

    /// The rows of the bundle's image manifest, one per image reference in
    /// reference order.
    pub fn images_manifest(&self) -> (r: ImagesXml)
        ensures
            r.images@.len() == self.images@.len(),
            forall|i: int|
                0 <= i < self.images@.len() ==> {
                    let row = spec_image_row(#[trigger] self.images@[i]);
                    &&& r.images@[i].name@ == row.0
                    &&& r.images@[i].diffuse@ == row.1
                    &&& (match r.images@[i].alpha {
                        Some(a) => row.2 == Some(a@),
                        None => row.2 is None,
                    })
                },
    {
        let n = self.images.len();
        let mut rows: Vec<ImageXml> = Vec::new();
        let mut i: usize = 0;
        while i < n
            invariant
                n == self.images@.len(),
                i <= n,
                rows@.len() == i,
                forall|k: int|
                    0 <= k < i ==> {
                        let row = spec_image_row(#[trigger] self.images@[k]);
                        &&& rows@[k].name@ == row.0
                        &&& rows@[k].diffuse@ == row.1
                        &&& (match rows@[k].alpha {
                            Some(a) => row.2 == Some(a@),
                            None => row.2 is None,
                        })
                    },
            decreases n - i,
        {
            let name = self.images[i].0.clone();
            let row = match &self.images[i].1 {
                Object3DImage::Simple(diffuse) => ImageXml {
                    name,
                    diffuse: crate::path::file_name(diffuse.as_str()),
                    alpha: None,
                },
                Object3DImage::Complex { diffuse, alpha } => ImageXml {
                    name,
                    diffuse: crate::path::file_name(diffuse.as_str()),
                    alpha: Some(crate::path::file_name(alpha.as_str())),
                },
            };
            rows.push(row);
            i = i + 1;
        }
        ImagesXml { images: rows }
    }
}

} // verus!
