use vstd::prelude::*;

use crate::kind::{asset_path, opt_view, spec_asset_path, Resource, ResourceInfo};

verus! {

/// An animated texture: a diffuse strip, an optional alpha strip, and an
/// encoded properties record, packed together into one archive.  The
/// animation properties themselves (frame rate and dimensions) are encoded
/// by the protocol codec around the library and enter here as bytes.
#[derive(Clone)]
pub struct MultiframeTextureResource {
    pub root: String,
    pub info: Option<ResourceInfo>,
    pub diffuse: Option<String>,
    pub alpha: Option<String>,
}

impl Resource for MultiframeTextureResource {
    open spec fn root_view(&self) -> Seq<char> {
        self.root@
    }

    open spec fn info_view(&self) -> Option<ResourceInfo> {
        self.info
    }

    open spec fn spec_input_files(&self) -> Seq<Seq<char>> {
        seq![
            spec_asset_path(self.root@, opt_view(self.diffuse), ("diffuse.jpg")@),
            spec_asset_path(self.root@, opt_view(self.alpha), ("alpha.jpg")@),
        ]
    }

    fn init_root(&mut self, root: String) {
        self.root = root;
    }

    fn init(&mut self, info: ResourceInfo) {
        self.info = Some(info);
    }

    fn get_root(&self) -> (r: String) {
        self.root.clone()
    }

    fn get_info(&self) -> (r: &Option<ResourceInfo>) {
        &self.info
    }

    fn input_files(&self) -> (r: Vec<String>) {
        let mut v: Vec<String> = Vec::new();
        v.push(self.get_diffuse());
        v.push(self.get_alpha());
        proof {
            assert(v@.map_values(|p: String| p@) =~= self.spec_input_files());
        }
        v
    }
}

/// The archive entries of a multiframe texture bundle, in their fixed
/// order: the properties record under `p`, then the alpha bytes under `a`
/// when present, then the diffuse bytes under `i` when present.
pub open spec fn spec_mft_entries(
    properties: Seq<u8>,
    alpha: Option<Vec<u8>>,
    diffuse: Option<Vec<u8>>,
) -> Seq<(Seq<char>, Seq<u8>)> {
    seq![(("p")@, properties)] + (match alpha {
        Some(a) => seq![(("a")@, a@)],
        None => Seq::<(Seq<char>, Seq<u8>)>::empty(),
    }) + (match diffuse {
        Some(d) => seq![(("i")@, d@)],
        None => Seq::<(Seq<char>, Seq<u8>)>::empty(),
    })
}

impl MultiframeTextureResource {
    /// The diffuse strip this resource packs: the configured file, or
    /// `diffuse.jpg` under the root.
    pub fn get_diffuse(&self) -> (r: String)
        ensures
            r@ == spec_asset_path(self.root@, opt_view(self.diffuse), ("diffuse.jpg")@),
    {
        asset_path(&self.root, &self.diffuse, "diffuse.jpg")
    }

    /// The alpha strip this resource packs: the configured alpha file, or
    /// `alpha.jpg` under the root.
    pub fn get_alpha(&self) -> (r: String)
        ensures
            r@ == spec_asset_path(self.root@, opt_view(self.alpha), ("alpha.jpg")@),
    {
        asset_path(&self.root, &self.alpha, "alpha.jpg")
    }

    /// The ordered entries of the `image.tara` archive this bundle holds:
    /// properties, then alpha and diffuse bytes where those assets exist.
    pub fn output_entries(
        &self,
        properties: Vec<u8>,
        alpha: Option<Vec<u8>>,
        diffuse: Option<Vec<u8>>,
    ) -> (r: Vec<(String, Vec<u8>)>)
        ensures
            r@.map_values(|e: (String, Vec<u8>)| (e.0@, e.1@)) == spec_mft_entries(
                properties@,
                alpha,
                diffuse,
            ),
    {
        let ghost galpha = alpha;
        let ghost gdiffuse = diffuse;
        let mut out: Vec<(String, Vec<u8>)> = Vec::new();
        out.push(("p".to_owned(), properties));
        match alpha {
            Some(a) => out.push(("a".to_owned(), a)),
            None => {},
        }
        match diffuse {
            Some(d) => out.push(("i".to_owned(), d)),
            None => {},
        }
        proof {
            assert(out@.map_values(|e: (String, Vec<u8>)| (e.0@, e.1@)) =~= spec_mft_entries(
                properties@,
                galpha,
                gdiffuse,
            ));
        }
        out
    }
}

} // verus!
