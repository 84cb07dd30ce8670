pub mod image;
pub mod localization;
pub mod localized_image;
pub mod map;
pub mod multiframe_texture;
pub mod object3d;
pub mod proplib;
pub mod sound;
pub mod swf_library;
pub mod texture;

use vstd::prelude::*;

use crate::namespace::Namespace;
use crate::num::octal_repr;
use crate::path::{path_join, path_starts_with, spec_path_join, spec_path_starts_with};
use crate::text::push_char;

verus! {

/// The identity of a discovered resource: its dot-joined logical name, its
/// stable numeric id, its content version, and the namespace read off its
/// path.
#[derive(Clone)]
pub struct ResourceInfo {
    pub name: String,
    pub id: i64,
    pub version: i64,
    pub namespaces: Namespace,
}

/// The on-disk bundle path of a resource: the id cut into four octal groups
/// (bits 32 and up, 16 to 31, 8 to 15, 0 to 7), then the version in octal,
/// joined with separators.
pub open spec fn spec_encode(id: i64, version: i64) -> Seq<char>
    recommends
        id >= 0,
        version >= 0,
{
    octal_repr((((id as u64) >> 32) & 0xffffffff) as nat) + seq!['/'] + octal_repr(
        (((id as u64) >> 16) & 0xffff) as nat,
    ) + seq!['/'] + octal_repr((((id as u64) >> 8) & 0xff) as nat) + seq!['/'] + octal_repr(
        ((id as u64) & 0xff) as nat,
    ) + seq!['/'] + octal_repr((version as u64) as nat)
}

impl ResourceInfo {
    /// Renders the bundle path of this resource, a shallow directory tree
    /// keyed by id and version.
    pub fn encode(&self) -> (r: String)
        requires
            self.id >= 0,
            self.version >= 0,
        ensures
            r@ == spec_encode(self.id, self.version),
    {
        let id = self.id as u64;
        let version = self.version as u64;
        let mut out = crate::num::format_octal_u64((id >> 32) & 0xffffffff);
        push_char(&mut out, '/');
        let g2 = crate::num::format_octal_u64((id >> 16) & 0xffff);
        out.append(g2.as_str());
        push_char(&mut out, '/');
        let g3 = crate::num::format_octal_u64((id >> 8) & 0xff);
        out.append(g3.as_str());
        push_char(&mut out, '/');
        let g4 = crate::num::format_octal_u64(id & 0xff);
        out.append(g4.as_str());
        push_char(&mut out, '/');
        let g5 = crate::num::format_octal_u64(version);
        out.append(g5.as_str());
        proof {
            assert(out@ =~= spec_encode(self.id, self.version));
        }
        out
    }

    /// An equal copy.
    pub fn duplicate(&self) -> (r: ResourceInfo)
        ensures
            r.name@ == self.name@,
            r.id == self.id,
            r.version == self.version,
            r.namespaces@ == self.namespaces@,
    {
        ResourceInfo {
            name: self.name.clone(),
            id: self.id,
            version: self.version,
            namespaces: self.namespaces.duplicate(),
        }
    }
}

/// The closed set of resource kinds the catalogue knows.
#[derive(Clone, Copy, Debug, PartialEq, Eq, Structural)]
pub enum ResourceKind {
    SwfLibrary,
    Sound,
    GameMap,
    Proplib,
    Texture,
    Image,
    MultiframeTexture,
    ScalableImage,
    LocalizedImage,
    Object3D,
    Effects,
    RawData,
}

/// The wire code of each resource kind.
pub open spec fn spec_kind_code(k: ResourceKind) -> i32 {
    match k {
        ResourceKind::SwfLibrary => 1,
        ResourceKind::Sound => 4,
        ResourceKind::GameMap => 7,
        ResourceKind::Proplib => 8,
        ResourceKind::Texture => 9,
        ResourceKind::Image => 10,
        ResourceKind::MultiframeTexture => 11,
        ResourceKind::ScalableImage => 12,
        ResourceKind::LocalizedImage => 13,
        ResourceKind::Object3D => 17,
        ResourceKind::Effects => 25,
        ResourceKind::RawData => 400,
    }
}

impl ResourceKind {
    /// The numeric code this kind serializes as.
    pub fn code(&self) -> (r: i32)
        ensures
            r == spec_kind_code(*self),
    {
        match self {
            ResourceKind::SwfLibrary => 1,
            ResourceKind::Sound => 4,
            ResourceKind::GameMap => 7,
            ResourceKind::Proplib => 8,
            ResourceKind::Texture => 9,
            ResourceKind::Image => 10,
            ResourceKind::MultiframeTexture => 11,
            ResourceKind::ScalableImage => 12,
            ResourceKind::LocalizedImage => 13,
            ResourceKind::Object3D => 17,
            ResourceKind::Effects => 25,
            ResourceKind::RawData => 400,
        }
    }

}

/// The path a kind's single asset resolves to: the configured file itself
/// when it already lies under the resource root, the file joined under the
/// root otherwise, or the conventional default name under the root when
/// none is configured.
pub open spec fn spec_asset_path(
    root: Seq<char>,
    file: Option<Seq<char>>,
    default: Seq<char>,
) -> Seq<char> {
    match file {
        Some(f) => if spec_path_starts_with(f, root) {
            f
        } else {
            spec_path_join(root, f)
        },
        None => spec_path_join(root, default),
    }
}

/// The view of an optional path.
pub open spec fn opt_view(file: Option<String>) -> Option<Seq<char>> {
    match file {
        Some(f) => Some(f@),
        None => None,
    }
}

/// Resolves a kind's single asset path against its root.
pub fn asset_path(root: &String, file: &Option<String>, default: &str) -> (r: String)
    ensures
        r@ == spec_asset_path(root@, opt_view(*file), default@),
{
    match file {
        Some(f) => {
            if path_starts_with(f.as_str(), root.as_str()) {
                f.clone()
            } else {
                path_join(root.as_str(), f.as_str())
            }
        },
        None => path_join(root.as_str(), default),
    }
}

/// The capability set every resource kind offers: binding its source
/// directory, binding its computed identity, and enumerating the files
/// whose bytes make its content version.
pub trait Resource {
    /// The source directory the resource is bound to.
    spec fn root_view(&self) -> Seq<char>;

    /// The identity bound to the resource, once computed.
    spec fn info_view(&self) -> Option<ResourceInfo>;

    /// The input files whose bytes take part in version hashing.
    spec fn spec_input_files(&self) -> Seq<Seq<char>>;

    /// Binds the resource to its source directory.
    fn init_root(&mut self, root: String)
        ensures
            final(self).root_view() == root@,
            final(self).info_view() == old(self).info_view(),
    ;

    /// Binds the computed identity.
    fn init(&mut self, info: ResourceInfo)
        ensures
            final(self).info_view() == Some(info),
            final(self).root_view() == old(self).root_view(),
    ;

    /// The source directory.
    fn get_root(&self) -> (r: String)
        ensures
            r@ == self.root_view(),
    ;

    /// The bound identity, if any.
    fn get_info(&self) -> (r: &Option<ResourceInfo>)
        ensures
            match r {
                Some(info) => self.info_view() == Some(*info),
                None => self.info_view() is None,
            },
    ;

    /// The input files whose bytes make the content version.
    fn input_files(&self) -> (r: Vec<String>)
        ensures
            r@.map_values(|p: String| p@) == self.spec_input_files(),
    ;
}

/// A discovered resource: the closed set of kinds, each with its
/// kind-specific fields.
#[derive(Clone)]
pub enum ResourceDefinition {
    SwfLibrary(swf_library::SwfLibraryResource),
    Sound(sound::SoundResource),
    GameMap(map::MapResource),
    Proplib(proplib::ProplibResource),
    Texture(texture::TextureResource),
    Image(image::ImageResource),
    MultiframeTexture(multiframe_texture::MultiframeTextureResource),
    LocalizedImage(localized_image::LocalizedImageResource),
    Object3D(object3d::Object3DResource),
    Localization(localization::LocalizationResource),
}

impl ResourceDefinition {
    /// The identity bound to the resource, whatever its kind.
    pub open spec fn def_info(&self) -> Option<ResourceInfo> {
        match self {
            ResourceDefinition::SwfLibrary(r) => r.info,
            ResourceDefinition::Sound(r) => r.info,
            ResourceDefinition::GameMap(r) => r.info,
            ResourceDefinition::Proplib(r) => r.info,
            ResourceDefinition::Texture(r) => r.info,
            ResourceDefinition::Image(r) => r.info,
            ResourceDefinition::MultiframeTexture(r) => r.info,
            ResourceDefinition::LocalizedImage(r) => r.info,
            ResourceDefinition::Object3D(r) => r.info,
            ResourceDefinition::Localization(r) => r.info,
        }
    }

    /// The identity bound to the resource.
    pub fn get_info(&self) -> (r: &Option<ResourceInfo>)
        ensures
            match r {
                Some(info) => self.def_info() == Some(*info),
                None => self.def_info() is None,
            },
    {
        match self {
            ResourceDefinition::SwfLibrary(r) => &r.info,
            ResourceDefinition::Sound(r) => &r.info,
            ResourceDefinition::GameMap(r) => &r.info,
            ResourceDefinition::Proplib(r) => &r.info,
            ResourceDefinition::Texture(r) => &r.info,
            ResourceDefinition::Image(r) => &r.info,
            ResourceDefinition::MultiframeTexture(r) => &r.info,
            ResourceDefinition::LocalizedImage(r) => &r.info,
            ResourceDefinition::Object3D(r) => &r.info,
            ResourceDefinition::Localization(r) => &r.info,
        }
    }

    /// The source directory the resource is bound to, whatever its kind.
    pub open spec fn def_root(&self) -> Seq<char> {
        match self {
            ResourceDefinition::SwfLibrary(r) => r.root@,
            ResourceDefinition::Sound(r) => r.root@,
            ResourceDefinition::GameMap(r) => r.root@,
            ResourceDefinition::Proplib(r) => r.root@,
            ResourceDefinition::Texture(r) => r.root@,
            ResourceDefinition::Image(r) => r.root@,
            ResourceDefinition::MultiframeTexture(r) => r.root@,
            ResourceDefinition::LocalizedImage(r) => r.root@,
            ResourceDefinition::Object3D(r) => r.root@,
            ResourceDefinition::Localization(r) => r.root@,
        }
    }

    /// The resource with its source directory replaced and every other
    /// field kept.
    pub open spec fn with_root(self, root: String) -> ResourceDefinition {
        match self {
            ResourceDefinition::SwfLibrary(r) => ResourceDefinition::SwfLibrary(
                swf_library::SwfLibraryResource { root, ..r },
            ),
            ResourceDefinition::Sound(r) => ResourceDefinition::Sound(
                sound::SoundResource { root, ..r },
            ),
            ResourceDefinition::GameMap(r) => ResourceDefinition::GameMap(
                map::MapResource { root, ..r },
            ),
            ResourceDefinition::Proplib(r) => ResourceDefinition::Proplib(
                proplib::ProplibResource { root, ..r },
            ),
            ResourceDefinition::Texture(r) => ResourceDefinition::Texture(
                texture::TextureResource { root, ..r },
            ),
            ResourceDefinition::Image(r) => ResourceDefinition::Image(
                image::ImageResource { root, ..r },
            ),
            ResourceDefinition::MultiframeTexture(r) => ResourceDefinition::MultiframeTexture(
                multiframe_texture::MultiframeTextureResource { root, ..r },
            ),
            ResourceDefinition::LocalizedImage(r) => ResourceDefinition::LocalizedImage(
                localized_image::LocalizedImageResource { root, ..r },
            ),
            ResourceDefinition::Object3D(r) => ResourceDefinition::Object3D(
                object3d::Object3DResource { root, ..r },
            ),
            ResourceDefinition::Localization(r) => ResourceDefinition::Localization(
                localization::LocalizationResource { root, ..r },
            ),
        }
    }

    /// The resource with its identity bound and every other field kept.
    pub open spec fn with_info(self, info: ResourceInfo) -> ResourceDefinition {
        match self {
            ResourceDefinition::SwfLibrary(r) => ResourceDefinition::SwfLibrary(
                swf_library::SwfLibraryResource { info: Some(info), ..r },
            ),
            ResourceDefinition::Sound(r) => ResourceDefinition::Sound(
                sound::SoundResource { info: Some(info), ..r },
            ),
            ResourceDefinition::GameMap(r) => ResourceDefinition::GameMap(
                map::MapResource { info: Some(info), ..r },
            ),
            ResourceDefinition::Proplib(r) => ResourceDefinition::Proplib(
                proplib::ProplibResource { info: Some(info), ..r },
            ),
            ResourceDefinition::Texture(r) => ResourceDefinition::Texture(
                texture::TextureResource { info: Some(info), ..r },
            ),
            ResourceDefinition::Image(r) => ResourceDefinition::Image(
                image::ImageResource { info: Some(info), ..r },
            ),
            ResourceDefinition::MultiframeTexture(r) => ResourceDefinition::MultiframeTexture(
                multiframe_texture::MultiframeTextureResource { info: Some(info), ..r },
            ),
            ResourceDefinition::LocalizedImage(r) => ResourceDefinition::LocalizedImage(
                localized_image::LocalizedImageResource { info: Some(info), ..r },
            ),
            ResourceDefinition::Object3D(r) => ResourceDefinition::Object3D(
                object3d::Object3DResource { info: Some(info), ..r },
            ),
            ResourceDefinition::Localization(r) => ResourceDefinition::Localization(
                localization::LocalizationResource { info: Some(info), ..r },
            ),
        }
    }

    /// Binds the resource, whatever its kind, to its source directory: the
    /// root is replaced and everything else is kept.
    pub fn init_root(&mut self, root: String)
        ensures
            *final(self) == old(self).with_root(root),
            final(self).def_root() == root@,
            final(self).def_info() == old(self).def_info(),
    {
        match self {
            ResourceDefinition::SwfLibrary(r) => r.root = root,
            ResourceDefinition::Sound(r) => r.root = root,
            ResourceDefinition::GameMap(r) => r.root = root,
            ResourceDefinition::Proplib(r) => r.root = root,
            ResourceDefinition::Texture(r) => r.root = root,
            ResourceDefinition::Image(r) => r.root = root,
            ResourceDefinition::MultiframeTexture(r) => r.root = root,
            ResourceDefinition::LocalizedImage(r) => r.root = root,
            ResourceDefinition::Object3D(r) => r.root = root,
            ResourceDefinition::Localization(r) => r.root = root,
        }
    }

    /// Binds the computed identity, whatever the kind: the identity is set
    /// and everything else is kept.
    pub fn init(&mut self, info: ResourceInfo)
        ensures
            *final(self) == old(self).with_info(info),
            final(self).def_info() == Some(info),
            final(self).def_root() == old(self).def_root(),
    {
        match self {
            ResourceDefinition::SwfLibrary(r) => r.info = Some(info),
            ResourceDefinition::Sound(r) => r.info = Some(info),
            ResourceDefinition::GameMap(r) => r.info = Some(info),
            ResourceDefinition::Proplib(r) => r.info = Some(info),
            ResourceDefinition::Texture(r) => r.info = Some(info),
            ResourceDefinition::Image(r) => r.info = Some(info),
            ResourceDefinition::MultiframeTexture(r) => r.info = Some(info),
            ResourceDefinition::LocalizedImage(r) => r.info = Some(info),
            ResourceDefinition::Object3D(r) => r.info = Some(info),
            ResourceDefinition::Localization(r) => r.info = Some(info),
        }
    }

    /// The input files of the resource, whatever its kind.
    pub open spec fn def_input_files(&self) -> Seq<Seq<char>> {
        match self {
            ResourceDefinition::SwfLibrary(r) => r.spec_input_files(),
            ResourceDefinition::Sound(r) => r.spec_input_files(),
            ResourceDefinition::GameMap(r) => r.spec_input_files(),
            ResourceDefinition::Proplib(r) => r.spec_input_files(),
            ResourceDefinition::Texture(r) => r.spec_input_files(),
            ResourceDefinition::Image(r) => r.spec_input_files(),
            ResourceDefinition::MultiframeTexture(r) => r.spec_input_files(),
            ResourceDefinition::LocalizedImage(r) => r.spec_input_files(),
            ResourceDefinition::Object3D(r) => r.spec_input_files(),
            ResourceDefinition::Localization(r) => r.spec_input_files(),
        }
    }

    /// The input files whose bytes make the content version, whatever the
    /// kind.
    pub fn input_files(&self) -> (r: Vec<String>)
        ensures
            r@.map_values(|p: String| p@) == self.def_input_files(),
    {
        match self {
            ResourceDefinition::SwfLibrary(r) => r.input_files(),
            ResourceDefinition::Sound(r) => r.input_files(),
            ResourceDefinition::GameMap(r) => r.input_files(),
            ResourceDefinition::Proplib(r) => r.input_files(),
            ResourceDefinition::Texture(r) => r.input_files(),
            ResourceDefinition::Image(r) => r.input_files(),
            ResourceDefinition::MultiframeTexture(r) => r.input_files(),
            ResourceDefinition::LocalizedImage(r) => r.input_files(),
            ResourceDefinition::Object3D(r) => r.input_files(),
            ResourceDefinition::Localization(r) => r.input_files(),
        }
    }

    /// Whether this resource is rebuilt on every run, whatever the cache
    /// says: the regeneration override for localization data.
    pub fn forces_rebuild(&self) -> (r: bool)
        ensures
            r == (self is Localization),
    {
        match self {
            ResourceDefinition::Localization(_) => true,
            _ => false,
        }
    }
}

/// The files whose bytes version a directory-tree resource: every file
/// under its root except the definition manifest.
pub open spec fn spec_tree_inputs(tree: Seq<Seq<char>>) -> Seq<Seq<char>> {
    tree.filter(|p: Seq<char>| crate::path::spec_file_name(p) != ("resource.yaml")@)
}

/// Filters a walked directory tree down to a resource's input files,
/// leaving the definition manifest out.
pub fn tree_input_files(tree: &Vec<String>) -> (r: Vec<String>)
    ensures
        r@.map_values(|p: String| p@) == spec_tree_inputs(tree@.map_values(|p: String| p@)),
{
    let ghost views = tree@.map_values(|p: String| p@);
    let ghost pred = |p: Seq<char>| crate::path::spec_file_name(p) != ("resource.yaml")@;
    let n = tree.len();
    let mut out: Vec<String> = Vec::new();
    proof {
        reveal(Seq::filter);
        assert(views.take(0int).filter(pred) =~= Seq::<Seq<char>>::empty());
    }
    let mut i: usize = 0;
    while i < n
        invariant
            n == tree@.len(),
            i <= n,
            views == tree@.map_values(|p: String| p@),
            out@.map_values(|p: String| p@) =~= views.take(i as int).filter(
                |p: Seq<char>| crate::path::spec_file_name(p) != ("resource.yaml")@,
            ),
        decreases n - i,
    {
        proof {
            reveal(Seq::filter);
            assert(views.take(i + 1).drop_last() =~= views.take(i as int));
            assert(views.take(i + 1).last() == views[i as int]);
        }
        let name = crate::path::file_name(tree[i].as_str());
        if !crate::text::str_eq(name.as_str(), "resource.yaml") {
            let ghost old_out = out@;
            out.push(tree[i].clone());
            proof {
                assert(out@.map_values(|p: String| p@) =~= old_out.map_values(
                    |p: String| p@,
                ).push(views[i as int]));
            }
        }
        i = i + 1;
    }
    proof {
        assert(views.take(n as int) =~= views);
    }
    out
}

/// Renames output files to their bare file names, as bundles store them.
pub fn rename_to_file_names(files: Vec<(String, Vec<u8>)>) -> (r: Vec<(String, Vec<u8>)>)
    ensures
        r@.len() == files@.len(),
        forall|i: int|
            0 <= i < files@.len() ==> (#[trigger] r@[i]).0@ == crate::path::spec_file_name(
                files@[i].0@,
            ) && r@[i].1@ == files@[i].1@,
{
    let n = files.len();
    let ghost fviews = files@;
    let mut rest = files;
    let mut out: Vec<(String, Vec<u8>)> = Vec::new();
    proof {
        assert(rest@ =~= fviews.skip(0));
    }
    let mut i: usize = 0;
    while i < n
        invariant
            n == fviews.len(),
            i <= n,
            rest@ =~= fviews.skip(i as int),
            out@.len() == i,
            forall|k: int|
                0 <= k < i ==> (#[trigger] out@[k]).0@ == crate::path::spec_file_name(
                    fviews[k].0@,
                ) && out@[k].1@ == fviews[k].1@,
        decreases n - i,
    {
        proof {
            assert(fviews.skip(i as int)[0] == fviews[i as int]);
            assert(fviews.skip(i as int).remove(0) =~= fviews.skip(i + 1));
        }
        let (path, data) = rest.remove(0);
        let name = crate::path::file_name(path.as_str());
        out.push((name, data));
        i = i + 1;
    }
    out
}

} // verus!
