use vstd::prelude::*;

use crate::kind::image::ImageResource;
use crate::kind::map::MapResource;
use crate::kind::sound::SoundResource;
use crate::kind::swf_library::SwfLibraryResource;
use crate::kind::texture::TextureResource;
use crate::kind::{opt_view, ResourceDefinition};
use crate::path::{derive_name, spec_derive_name};
use crate::text::{has_char, push_char, rsplit_once, spec_after_last, spec_before_last, str_eq};

verus! {

/// Whether the run may skip reprocessing a resource: only when its inputs
/// are unchanged since the cached run, its output bundle already exists on
/// disk, and its kind does not force regeneration.  The cache is an
/// optimization, never a substitute for the content-addressed existence
/// check.
pub fn should_skip_processing(changed: bool, bundle_exists: bool, forces_rebuild: bool) -> (r:
    bool)
    ensures
        r == (!changed && bundle_exists && !forces_rebuild),
{
    !changed && bundle_exists && !forces_rebuild
}

/// Whether the run writes a resource's output bundle: exactly when no
/// bundle directory exists yet for its id and version.  An existing bundle
/// is treated as already correct and is never rewritten.
pub fn should_write_bundle(bundle_exists: bool) -> (r: bool)
    ensures
        r == !bundle_exists,
{
    !bundle_exists
}

/// The three parts of a short-form definition file name `name@Kind.ext`:
/// the resource name, the kind word, and the extension (empty when the
/// name has none); nothing when no `@` marker is present.
pub open spec fn spec_short_parts(file_name: Seq<char>) -> Option<
    (Seq<char>, Seq<char>, Seq<char>),
> {
    let stem = spec_before_last(file_name, '.');
    let ext = if has_char(file_name, '.') {
        spec_after_last(file_name, '.')
    } else {
        Seq::empty()
    };
    if has_char(stem, '@') {
        Some((spec_before_last(stem, '@'), spec_after_last(stem, '@'), ext))
    } else {
        None
    }
}

/// Cuts a file name of the short-form pattern `name@Kind.ext` into its
/// parts.
pub fn parse_short_name(file_name: &str) -> (r: Option<(String, String, String)>)
    ensures
        match r {
            Some((name, kind, ext)) => spec_short_parts(file_name@) == Some((name@, kind@, ext@)),
            None => spec_short_parts(file_name@) is None,
        },
{
    let (stem, ext) = match rsplit_once(file_name, '.') {
        Some((stem, ext)) => (stem, ext),
        None => (file_name.to_owned(), String::new()),
    };
    match rsplit_once(stem.as_str(), '@') {
        Some((name, kind)) => Some((name, kind, ext)),
        None => None,
    }
}

/// The short-form resource a kind word denotes, bound to its asset file:
/// the kinds a full manifest is not required for.  Kind words that demand
/// a full definition yield nothing.
pub fn build_short_definition(kind: &str, path: &str) -> (r: Option<ResourceDefinition>)
    ensures
        match r {
            Some(d) => match d {
                ResourceDefinition::Sound(s) => kind@ == ("Sound")@ && s.root@.len() == 0 && s.info
                    is None && opt_view(s.sound) == Some(path@),
                ResourceDefinition::GameMap(m) => kind@ == ("Map")@ && m.root@.len() == 0 && m.info
                    is None && opt_view(m.map) == Some(path@) && m.parsed is None
                    && m.proplibs@.len() == 0 && m.namespace is None,
                ResourceDefinition::Texture(t) => kind@ == ("Texture")@ && t.root@.len() == 0
                    && t.info is None && opt_view(t.diffuse) == Some(path@),
                ResourceDefinition::Image(i) => kind@ == ("Image")@ && i.root@.len() == 0 && i.info
                    is None && opt_view(i.image) == Some(path@),
                ResourceDefinition::SwfLibrary(l) => kind@ == ("SwfLibrary")@ && l.root@.len() == 0
                    && l.info is None && opt_view(l.file) == Some(path@),
                _ => false,
            },
            None => kind@ != ("Sound")@ && kind@ != ("Map")@ && kind@ != ("Texture")@ && kind@
                != ("Image")@ && kind@ != ("SwfLibrary")@,
        },
{
    if str_eq(kind, "Sound") {
        Some(
            ResourceDefinition::Sound(
                SoundResource { root: String::new(), info: None, sound: Some(path.to_owned()) },
            ),
        )
    } else if str_eq(kind, "Map") {
        Some(
            ResourceDefinition::GameMap(
                MapResource {
                    root: String::new(),
                    info: None,
                    map: Some(path.to_owned()),
                    parsed: None,
                    proplibs: Vec::new(),
                    namespace: None,
                },
            ),
        )
    } else if str_eq(kind, "Texture") {
        Some(
            ResourceDefinition::Texture(
                TextureResource { root: String::new(), info: None, diffuse: Some(path.to_owned()) },
            ),
        )
    } else if str_eq(kind, "Image") {
        Some(
            ResourceDefinition::Image(
                ImageResource { root: String::new(), info: None, image: Some(path.to_owned()) },
            ),
        )
    } else if str_eq(kind, "SwfLibrary") {
        Some(
            ResourceDefinition::SwfLibrary(
                SwfLibraryResource { root: String::new(), info: None, file: Some(path.to_owned()) },
            ),
        )
    } else {
        None
    }
}

/// The logical name of a short-form resource: the name its parent
/// directory derives, a dot, and the name cut from the file name.
pub fn derive_short_name(rel_parent: &str, name: &str) -> (r: String)
    ensures
        r@ == spec_derive_name(rel_parent@) + seq!['.'] + name@,
{
    let mut out = derive_name(rel_parent);
    push_char(&mut out, '.');
    out.append(name);
    proof {
        assert(out@ =~= spec_derive_name(rel_parent@) + seq!['.'] + name@);
    }
    out
}

} // verus!
