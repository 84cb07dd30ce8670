use vstd::prelude::*;

use crate::kind::{asset_path, opt_view, spec_asset_path, Resource, ResourceInfo};

verus! {

/// An image: a single asset copied into its bundle.
#[derive(Clone)]
pub struct ImageResource {
    pub root: String,
    pub info: Option<ResourceInfo>,
    pub image: Option<String>,
}

impl Resource for ImageResource {
    open spec fn root_view(&self) -> Seq<char> {
        self.root@
    }

    open spec fn info_view(&self) -> Option<ResourceInfo> {
        self.info
    }

    open spec fn spec_input_files(&self) -> Seq<Seq<char>> {
        seq![spec_asset_path(self.root@, opt_view(self.image), ("image.jpg")@)]
    }

    fn init_root(&mut self, root: String) {
        self.root = root;
    }

    fn init(&mut self, info: ResourceInfo) {
        self.info = Some(info);
    }

    fn get_root(&self) -> (r: String) {
        self.root.clone()
    }

    fn get_info(&self) -> (r: &Option<ResourceInfo>) {
        &self.info
    }

    fn input_files(&self) -> (r: Vec<String>) {
        let mut v: Vec<String> = Vec::new();
        v.push(self.get_image());
        proof {
            assert(v@.map_values(|p: String| p@) =~= self.spec_input_files());
        }
        v
    }
}

impl ImageResource {
    /// The image file this resource packs: the configured file, or
    /// `image.jpg` under the root.
    pub fn get_image(&self) -> (r: String)
        ensures
            r@ == spec_asset_path(self.root@, opt_view(self.image), ("image.jpg")@),
    {
        asset_path(&self.root, &self.image, "image.jpg")
    }

    /// The bundle's single output: the asset bytes under the packed name.
    pub fn output_files(&self, data: Vec<u8>) -> (r: Vec<(String, Vec<u8>)>)
        ensures
            r@.len() == 1,
            r@[0].0@ == ("image.tnk")@,
            r@[0].1 == data,
    {
        let mut out: Vec<(String, Vec<u8>)> = Vec::new();
        out.push(("image.tnk".to_owned(), data));
        out
    }
}

} // verus!
