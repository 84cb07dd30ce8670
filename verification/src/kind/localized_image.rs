use vstd::prelude::*;

use crate::kind::{spec_tree_inputs, tree_input_files, Resource, ResourceInfo};
use crate::path::spec_file_name;
use crate::text::{before_last, push_char, spec_before_last};

verus! {

/// A per-language image set: every file under the resource root, each
/// copied into the bundle under its stem with the packed extension.
#[derive(Clone)]
pub struct LocalizedImageResource {
    pub root: String,
    pub info: Option<ResourceInfo>,
    pub tree: Vec<String>,
}

impl Resource for LocalizedImageResource {
    open spec fn root_view(&self) -> Seq<char> {
        self.root@
    }

    open spec fn info_view(&self) -> Option<ResourceInfo> {
        self.info
    }

    open spec fn spec_input_files(&self) -> Seq<Seq<char>> {
        spec_tree_inputs(self.tree@.map_values(|p: String| p@))
    }

    fn init_root(&mut self, root: String) {
        self.root = root;
    }

    fn init(&mut self, info: ResourceInfo) {
        self.info = Some(info);
    }

    fn get_root(&self) -> (r: String) {
        self.root.clone()
    }

    fn get_info(&self) -> (r: &Option<ResourceInfo>) {
        &self.info
    }

    fn input_files(&self) -> (r: Vec<String>) {
        tree_input_files(&self.tree)
    }
}

/// The bundle name of one copied file: its name without the extension,
/// with `.tnk` appended.
pub open spec fn spec_tnk_name(path: Seq<char>) -> Seq<char> {
    spec_before_last(spec_file_name(path), '.') + (".tnk")@
}

impl LocalizedImageResource {
    /// Binds the walked file tree below the root.
    pub fn set_tree(&mut self, tree: Vec<String>)
        ensures
            final(self).tree == tree,
            final(self).root == old(self).root,
            final(self).info == old(self).info,
    {
        self.tree = tree;
    }

    /// The bundle's outputs: each input file's bytes under its renamed
    /// form.
    pub fn output_files(&self, files: Vec<(String, Vec<u8>)>) -> (r: Vec<(String, Vec<u8>)>)
        ensures
            r@.len() == files@.len(),
            forall|i: int|
                0 <= i < files@.len() ==> (#[trigger] r@[i]).0@ == spec_tnk_name(files@[i].0@)
                    && r@[i].1@ == files@[i].1@,
    {
        let n = files.len();
        let ghost fviews = files@;
        let mut rest = files;
        let mut out: Vec<(String, Vec<u8>)> = Vec::new();
        proof {
            assert(rest@ =~= fviews.skip(0));
        }
        let mut i: usize = 0;
        while i < n
            invariant
                n == fviews.len(),
                i <= n,
                rest@ =~= fviews.skip(i as int),
                out@.len() == i,
                forall|k: int|
                    0 <= k < i ==> (#[trigger] out@[k]).0@ == spec_tnk_name(fviews[k].0@)
                        && out@[k].1@ == fviews[k].1@,
            decreases n - i,
        {
            proof {
                assert(fviews.skip(i as int)[0] == fviews[i as int]);
                assert(fviews.skip(i as int).remove(0) =~= fviews.skip(i + 1));
            }
            let (path, data) = rest.remove(0);
            let fname = crate::path::file_name(path.as_str());
            let mut name = before_last(fname.as_str(), '.');
            proof {
                reveal_strlit(".tnk");
            }
            push_char(&mut name, '.');
            push_char(&mut name, 't');
            push_char(&mut name, 'n');
            push_char(&mut name, 'k');
            proof {
                assert(name@ =~= spec_tnk_name(fviews[i as int].0@));
            }
            out.push((name, data));
            i = i + 1;
        }
        out
    }
}

} // verus!
