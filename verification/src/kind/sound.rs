use vstd::prelude::*;

use crate::kind::{asset_path, opt_view, spec_asset_path, Resource, ResourceInfo};

verus! {

/// A sound: a single asset copied into its bundle.
#[derive(Clone)]
pub struct SoundResource {
    pub root: String,
    pub info: Option<ResourceInfo>,
    pub sound: Option<String>,
}

impl Resource for SoundResource {
    open spec fn root_view(&self) -> Seq<char> {
        self.root@
    }

    open spec fn info_view(&self) -> Option<ResourceInfo> {
        self.info
    }

    open spec fn spec_input_files(&self) -> Seq<Seq<char>> {
        seq![spec_asset_path(self.root@, opt_view(self.sound), ("sound.mp3")@)]
    }

    fn init_root(&mut self, root: String) {
        self.root = root;
    }

    fn init(&mut self, info: ResourceInfo) {
        self.info = Some(info);
    }

    fn get_root(&self) -> (r: String) {
        self.root.clone()
    }

    fn get_info(&self) -> (r: &Option<ResourceInfo>) {
        &self.info
    }

    fn input_files(&self) -> (r: Vec<String>) {
        let mut v: Vec<String> = Vec::new();
        v.push(self.get_sound());
        proof {
            assert(v@.map_values(|p: String| p@) =~= self.spec_input_files());
        }
        v
    }
}

impl SoundResource {
    /// The sound file this resource packs: the configured file, or
    /// `sound.mp3` under the root.
    pub fn get_sound(&self) -> (r: String)
        ensures
            r@ == spec_asset_path(self.root@, opt_view(self.sound), ("sound.mp3")@),
    {
        asset_path(&self.root, &self.sound, "sound.mp3")
    }

    /// The bundle's single output: the asset bytes under the packed name.
    pub fn output_files(&self, data: Vec<u8>) -> (r: Vec<(String, Vec<u8>)>)
        ensures
            r@.len() == 1,
            r@[0].0@ == ("sound.swf")@,
            r@[0].1 == data,
    {
        let mut out: Vec<(String, Vec<u8>)> = Vec::new();
        out.push(("sound.swf".to_owned(), data));
        out
    }
}

} // verus!
