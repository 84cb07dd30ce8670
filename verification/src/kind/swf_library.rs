use vstd::prelude::*;

use crate::kind::{asset_path, opt_view, spec_asset_path, Resource, ResourceInfo};

verus! {

/// A shared SWF library: a single asset copied into its bundle.
#[derive(Clone)]
pub struct SwfLibraryResource {
    pub root: String,
    pub info: Option<ResourceInfo>,
    pub file: Option<String>,
}

impl Resource for SwfLibraryResource {
    open spec fn root_view(&self) -> Seq<char> {
        self.root@
    }

    open spec fn info_view(&self) -> Option<ResourceInfo> {
        self.info
    }

    open spec fn spec_input_files(&self) -> Seq<Seq<char>> {
        seq![spec_asset_path(self.root@, opt_view(self.file), ("library.swf")@)]
    }

    fn init_root(&mut self, root: String) {
        self.root = root;
    }

    fn init(&mut self, info: ResourceInfo) {
        self.info = Some(info);
    }

    fn get_root(&self) -> (r: String) {
        self.root.clone()
    }

    fn get_info(&self) -> (r: &Option<ResourceInfo>) {
        &self.info
    }

    fn input_files(&self) -> (r: Vec<String>) {
        let mut v: Vec<String> = Vec::new();
        v.push(self.get_library());
        proof {
            assert(v@.map_values(|p: String| p@) =~= self.spec_input_files());
        }
        v
    }
}

impl SwfLibraryResource {
    /// The SWF file this resource packs: the configured file, or
    /// `library.swf` under the root.
    pub fn get_library(&self) -> (r: String)
        ensures
            r@ == spec_asset_path(self.root@, opt_view(self.file), ("library.swf")@),
    {
        asset_path(&self.root, &self.file, "library.swf")
    }

    /// The bundle's single output: the asset bytes under the packed name.
    pub fn output_files(&self, data: Vec<u8>) -> (r: Vec<(String, Vec<u8>)>)
        ensures
            r@.len() == 1,
            r@[0].0@ == ("library.swf")@,
            r@[0].1 == data,
    {
        let mut out: Vec<(String, Vec<u8>)> = Vec::new();
        out.push(("library.swf".to_owned(), data));
        out
    }
}

} // verus!
