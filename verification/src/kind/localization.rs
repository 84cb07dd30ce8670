use vstd::prelude::*;

use crate::kind::{spec_tree_inputs, tree_input_files, Resource, ResourceInfo};
use crate::path::{path_join, spec_dir_of, spec_file_name, spec_path_join};
use crate::text::{has_char, push_char, rsplit_once};

verus! {

/// Localization data: image and string key/value pairs gathered under the
/// resource root, bound into one compressed binary blob by the protocol
/// codec around the library.
#[derive(Clone)]
pub struct LocalizationResource {
    pub root: String,
    pub info: Option<ResourceInfo>,
    pub images: Vec<(String, String)>,
    pub strings: Vec<(String, String)>,
    pub tree: Vec<String>,
}

impl Resource for LocalizationResource {
    open spec fn root_view(&self) -> Seq<char> {
        self.root@
    }

    open spec fn info_view(&self) -> Option<ResourceInfo> {
        self.info
    }

    open spec fn spec_input_files(&self) -> Seq<Seq<char>> {
        spec_tree_inputs(self.tree@.map_values(|p: String| p@))
    }

    fn init_root(&mut self, root: String) {
        self.root = root;
    }

    fn init(&mut self, info: ResourceInfo) {
        self.info = Some(info);
    }

    fn get_root(&self) -> (r: String) {
        self.root.clone()
    }

    fn get_info(&self) -> (r: &Option<ResourceInfo>) {
        &self.info
    }

    fn input_files(&self) -> (r: Vec<String>) {
        tree_input_files(&self.tree)
    }
}

/// The bundle name of a localization blob: the last dot-separated part of
/// the resource's logical name, with the payload extension; nothing when
/// the name has no dot.
pub open spec fn spec_l18n_name(name: Seq<char>) -> Option<Seq<char>> {
    if has_char(name, '.') {
        Some(crate::text::spec_after_last(name, '.') + (".l18n")@)
    } else {
        None
    }
}

/// The source file an image payload reads: the reference's directory, an
/// `images` directory under it, and the file name, all under the root.
pub open spec fn spec_image_payload_path(root: Seq<char>, value: Seq<char>) -> Seq<char> {
    spec_path_join(
        root,
        spec_path_join(spec_path_join(spec_dir_of(value), ("images")@), spec_file_name(value)),
    )
}

impl LocalizationResource {
    /// Binds the walked file tree below the root.
    pub fn set_tree(&mut self, tree: Vec<String>)
        ensures
            final(self).tree == tree,
            final(self).root == old(self).root,
            final(self).info == old(self).info,
            final(self).images == old(self).images,
            final(self).strings == old(self).strings,
    {
        self.tree = tree;
    }

    /// The file name of the bundle's single output blob, derived from the
    /// part of the logical name after its last dot; None when the name has
    /// no dot.
    pub fn output_name(&self) -> (r: Option<String>)
        ensures
            match self.info {
                Some(info) => match r {
                    Some(n) => spec_l18n_name(info.name@) == Some(n@),
                    None => spec_l18n_name(info.name@) is None,
                },
                None => r is None,
            },
    {
        let info = match &self.info {
            Some(info) => info,
            None => {
                return None;
            },
        };
        match rsplit_once(info.name.as_str(), '.') {
            Some((_, after)) => {
                let ghost name = info.name@;
                let mut out = after;
                proof {
                    reveal_strlit(".l18n");
                }
                push_char(&mut out, '.');
                push_char(&mut out, 'l');
                push_char(&mut out, '1');
                push_char(&mut out, '8');
                push_char(&mut out, 'n');
                proof {
                    assert(out@ =~= crate::text::spec_after_last(name, '.') + (".l18n")@);
                }
                Some(out)
            },
            None => None,
        }
    }

    /// Resolves the source file of one image payload against the root.
    pub fn image_payload_path(&self, value: &str) -> (r: String)
        ensures
            r@ == spec_image_payload_path(self.root@, value@),
    {
        let dir = crate::path::dir_of(value);
        let fname = crate::path::file_name(value);
        let under = path_join(dir.as_str(), "images");
        let rel = path_join(under.as_str(), fname.as_str());
        path_join(self.root.as_str(), rel.as_str())
    }
}

} // verus!
