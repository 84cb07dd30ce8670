use vstd::prelude::*;

use crate::kind::{asset_path, opt_view, spec_asset_path, Resource, ResourceDefinition,
    ResourceInfo};
use crate::text::str_eq;

verus! {

/// One prop placement in a map's static geometry: which library, group and
/// prop it places, and the explicit texture it asks for, empty when the
/// mesh's own default is wanted.
#[derive(Clone)]
pub struct Prop {
    pub library_name: String,
    pub group_name: String,
    pub name: String,
    pub texture_name: String,
}

/// The part of a map document the pipeline reads: its static-geometry prop
/// placements.
#[derive(Clone)]
pub struct StaticGeometry {
    pub props: Vec<Prop>,
}

/// One row of the proplibs-reference document: the library's name and its
/// resolved id and version, both in hexadecimal.
#[derive(Clone)]
pub struct LibraryXml {
    pub name: String,
    pub id: String,
    pub version: String,
}

/// The proplibs-reference document of a map bundle.
#[derive(Clone)]
pub struct ProplibsXml {
    pub libraries: Vec<LibraryXml>,
}

/// A map: its geometry document, and after resolution the identities of
/// the prop libraries its static geometry references.
#[derive(Clone)]
pub struct MapResource {
    pub root: String,
    pub info: Option<ResourceInfo>,
    pub map: Option<String>,
    pub parsed: Option<StaticGeometry>,
    pub proplibs: Vec<(String, ResourceInfo)>,
    pub namespace: Option<String>,
}

impl Resource for MapResource {
    open spec fn root_view(&self) -> Seq<char> {
        self.root@
    }

    open spec fn info_view(&self) -> Option<ResourceInfo> {
        self.info
    }

    open spec fn spec_input_files(&self) -> Seq<Seq<char>> {
        seq![spec_asset_path(self.root@, opt_view(self.map), ("map.xml")@)]
    }

    fn init_root(&mut self, root: String) {
        self.root = root;
    }

    fn init(&mut self, info: ResourceInfo) {
        self.info = Some(info);
    }

    fn get_root(&self) -> (r: String) {
        self.root.clone()
    }

    fn get_info(&self) -> (r: &Option<ResourceInfo>) {
        &self.info
    }

    fn input_files(&self) -> (r: Vec<String>) {
        let mut v: Vec<String> = Vec::new();
        v.push(self.get_map());
        proof {
            assert(v@.map_values(|p: String| p@) =~= self.spec_input_files());
        }
        v
    }
}

/// The abstract identity of a resource: its name, id, version, and
/// namespace, all as mathematical values.
pub open spec fn info_view_of(i: ResourceInfo) -> (Seq<char>, i64, i64, Map<Seq<char>, Seq<char>>) {
    (i.name@, i.id, i.version, i.namespaces@)
}

/// Some placement of the geometry references this library name.
pub open spec fn spec_referenced(props: Seq<Prop>, name: Seq<char>) -> bool {
    exists|i: int| 0 <= i < props.len() && props[i].library_name@ == name
}

/// A discovered resource answers a map's reference to a library name when
/// it is a prop library with that declared name, it carries its identity,
/// and its namespace covers the map's.
pub open spec fn spec_lib_matches(
    d: ResourceDefinition,
    name: Seq<char>,
    map_ns: Map<Seq<char>, Seq<char>>,
) -> bool {
    match d {
        ResourceDefinition::Proplib(p) => match p.name {
            Some(n) => n@ == name && match p.info {
                Some(info) => map_ns.submap_of(info.namespaces@),
                None => false,
            },
            None => false,
        },
        _ => false,
    }
}

/// The abstract identity a matching prop-library resource carries.
pub open spec fn spec_lib_info(d: ResourceDefinition) -> (
    Seq<char>,
    i64,
    i64,
    Map<Seq<char>, Seq<char>>,
) {
    match d {
        ResourceDefinition::Proplib(p) => match p.info {
            Some(info) => info_view_of(info),
            None => arbitrary(),
        },
        _ => arbitrary(),
    }
}

/// The bindings dependency resolution leaves on a map: walking the
/// discovered resources in order, each matching prop library is bound
/// under its declared name, later matches replacing earlier ones.
pub open spec fn spec_bound(
    resources: Seq<ResourceDefinition>,
    props: Seq<Prop>,
    map_ns: Map<Seq<char>, Seq<char>>,
) -> Map<Seq<char>, (Seq<char>, i64, i64, Map<Seq<char>, Seq<char>>)>
    decreases resources.len(),
{
    if resources.len() == 0 {
        Map::empty()
    } else {
        let m = spec_bound(resources.drop_last(), props, map_ns);
        let d = resources.last();
        match d {
            ResourceDefinition::Proplib(p) => match p.name {
                Some(n) => if spec_referenced(props, n@) && spec_lib_matches(d, n@, map_ns) {
                    m.insert(n@, spec_lib_info(d))
                } else {
                    m
                },
                None => m,
            },
            _ => m,
        }
    }
}

/// The mapping an association list of bindings denotes, later entries
/// shadowing earlier ones.
pub open spec fn libs_map(s: Seq<(String, ResourceInfo)>) -> Map<
    Seq<char>,
    (Seq<char>, i64, i64, Map<Seq<char>, Seq<char>>),
>
    decreases s.len(),
{
    if s.len() == 0 {
        Map::empty()
    } else {
        libs_map(s.drop_last()).insert(s.last().0@, info_view_of(s.last().1))
    }
}

/// Every name a resolution run binds is bound to a library whose
/// namespace covers the map's own: a map never resolves against a prop
/// library that carries another value for one of the map's namespace
/// keys.
pub proof fn lemma_namespace_scoping(
    resources: Seq<ResourceDefinition>,
    props: Seq<Prop>,
    map_ns: Map<Seq<char>, Seq<char>>,
    name: Seq<char>,
)
    requires
        spec_bound(resources, props, map_ns).contains_key(name),
    ensures
        map_ns.submap_of(spec_bound(resources, props, map_ns)[name].3),
        forall|k: Seq<char>|
            map_ns.contains_key(k) ==> spec_bound(resources, props, map_ns)[name].3.contains_key(
                k,
            ) && spec_bound(resources, props, map_ns)[name].3[k] == map_ns[k],
    decreases resources.len(),
{
    if resources.len() > 0 {
        let d = resources.last();
        let step_binds = match d {
            ResourceDefinition::Proplib(p) => match p.name {
                Some(n) => n@ == name && spec_referenced(props, n@) && spec_lib_matches(
                    d,
                    n@,
                    map_ns,
                ),
                None => false,
            },
            _ => false,
        };
        if !step_binds {
            lemma_namespace_scoping(resources.drop_last(), props, map_ns, name);
        }
    }
}

/// A name is bound exactly when the geometry references it and some
/// discovered prop library matches it.
pub proof fn lemma_bound_names(
    resources: Seq<ResourceDefinition>,
    props: Seq<Prop>,
    map_ns: Map<Seq<char>, Seq<char>>,
    name: Seq<char>,
)
    ensures
        spec_bound(resources, props, map_ns).contains_key(name) <==> (spec_referenced(props, name)
            && exists|i: int|
            0 <= i < resources.len() && spec_lib_matches(#[trigger] resources[i], name, map_ns)),
    decreases resources.len(),
{
    if resources.len() > 0 {
        lemma_bound_names(resources.drop_last(), props, map_ns, name);
        let bound = spec_bound(resources, props, map_ns);
        if bound.contains_key(name) {
            if !spec_bound(resources.drop_last(), props, map_ns).contains_key(name) {
                assert(spec_lib_matches(resources[resources.len() - 1], name, map_ns));
            } else {
                let i = choose|i: int|
                    0 <= i < resources.len() - 1 && spec_lib_matches(
                        #[trigger] resources.drop_last()[i],
                        name,
                        map_ns,
                    );
                assert(spec_lib_matches(resources[i], name, map_ns));
            }
        }
        if spec_referenced(props, name) && exists|i: int|
            0 <= i < resources.len() && spec_lib_matches(#[trigger] resources[i], name, map_ns) {
            let i = choose|i: int|
                0 <= i < resources.len() && spec_lib_matches(#[trigger] resources[i], name, map_ns);
            if i < resources.len() - 1 {
                assert(spec_lib_matches(resources.drop_last()[i], name, map_ns));
            }
            assert(bound.contains_key(name));
        }
    }
}

fn referenced(props: &Vec<Prop>, name: &str) -> (r: bool)
    ensures
        r == spec_referenced(props@, name@),
{
    let n = props.len();
    let mut i: usize = 0;
    while i < n
        invariant
            n == props@.len(),
            i <= n,
            forall|k: int| 0 <= k < i ==> props@[k].library_name@ != name@,
        decreases n - i,
    {
        if str_eq(props[i].library_name.as_str(), name) {
            return true;
        }
        i = i + 1;
    }
    false
}

proof fn lemma_libs_map_absent(s: Seq<(String, ResourceInfo)>, name: Seq<char>)
    requires
        forall|x: int| 0 <= x < s.len() ==> (#[trigger] s[x]).0@ != name,
    ensures
        !libs_map(s).contains_key(name),
    decreases s.len(),
{
    if s.len() > 0 {
        assert(s[s.len() - 1].0@ != name);
        assert(forall|x: int| 0 <= x < s.len() - 1 ==> (#[trigger] s.drop_last()[x]).0@ != name);
        lemma_libs_map_absent(s.drop_last(), name);
    }
}

/// No two bindings carry the same library name.
pub open spec fn libs_keys_unique(s: Seq<(String, ResourceInfo)>) -> bool {
    forall|i: int, j: int| 0 <= i < j < s.len() ==> s[i].0@ != s[j].0@
}

proof fn lemma_libs_map_update(s: Seq<(String, ResourceInfo)>, i: int, k: String, v: ResourceInfo)
    requires
        libs_keys_unique(s),
        0 <= i < s.len(),
        k@ == s[i].0@,
    ensures
        libs_map(s.update(i, (k, v))) =~= libs_map(s).insert(s[i].0@, info_view_of(v)),
    decreases s.len(),
{
    let t = s.update(i, (k, v));
    if i == s.len() - 1 {
        assert(t.drop_last() =~= s.drop_last());
        assert(t.last() == (k, v));
    } else {
        assert(libs_keys_unique(s.drop_last()));
        assert(s.drop_last()[i] == s[i]);
        lemma_libs_map_update(s.drop_last(), i, k, v);
        assert(t.drop_last() =~= s.drop_last().update(i, (k, v)));
        assert(t.last() == s.last());
        assert(s[i].0@ != s.last().0@);
    }
}

fn bind_lib(bound: &mut Vec<(String, ResourceInfo)>, name: String, info: ResourceInfo)
    requires
        libs_keys_unique(old(bound)@),
    ensures
        libs_keys_unique(final(bound)@),
        libs_map(final(bound)@) == libs_map(old(bound)@).insert(name@, info_view_of(info)),
{
    let n = bound.len();
    let mut i: usize = 0;
    while i < n
        invariant
            n == bound@.len(),
            i <= n,
            libs_keys_unique(bound@),
            bound@ == old(bound)@,
            forall|k: int| 0 <= k < i ==> (#[trigger] bound@[k]).0@ != name@,
        decreases n - i,
    {
        if str_eq(bound[i].0.as_str(), name.as_str()) {
            proof {
                lemma_libs_map_update(bound@, i as int, name, info);
            }
            let ghost old_entries = bound@;
            let ghost gname = name;
            let ghost ginfo = info;
            bound[i] = (name, info);
            proof {
                assert(bound@ =~= old_entries.update(i as int, (gname, ginfo)));
                assert(libs_keys_unique(bound@));
            }
            return ;
        }
        i = i + 1;
    }
    bound.push((name, info));
    proof {
        assert(bound@.drop_last() =~= old(bound)@);
        assert(libs_keys_unique(bound@));
    }
}

proof fn lemma_libs_map_present(s: Seq<(String, ResourceInfo)>, x: int)
    requires
        0 <= x < s.len(),
    ensures
        libs_map(s).contains_key(s[x].0@),
    decreases s.len(),
{
    if x < s.len() - 1 {
        assert(s.drop_last()[x] == s[x]);
        lemma_libs_map_present(s.drop_last(), x);
    }
}

fn bound_contains(bound: &Vec<(String, ResourceInfo)>, name: &str) -> (r: bool)
    ensures
        r == libs_map(bound@).contains_key(name@),
{
    let n = bound.len();
    let mut i: usize = 0;
    while i < n
        invariant
            n == bound@.len(),
            i <= n,
            forall|k: int| 0 <= k < i ==> (#[trigger] bound@[k]).0@ != name@,
        decreases n - i,
    {
        if str_eq(bound[i].0.as_str(), name) {
            proof {
                lemma_libs_map_present(bound@, i as int);
            }
            return true;
        }
        i = i + 1;
    }
    proof {
        lemma_libs_map_absent(bound@, name@);
    }
    false
}

/// The namespace a map resolves under: the one of its identity, empty
/// until the identity is bound.
pub open spec fn map_ns_of(info: Option<ResourceInfo>) -> Map<Seq<char>, Seq<char>> {
    match info {
        Some(i) => i.namespaces@,
        None => Map::empty(),
    }
}

impl MapResource {
    /// The geometry document this resource reads: the configured file, or
    /// `map.xml` under the root.
    pub fn get_map(&self) -> (r: String)
        ensures
            r@ == spec_asset_path(self.root@, opt_view(self.map), ("map.xml")@),
    {
        asset_path(&self.root, &self.map, "map.xml")
    }

    /// Binds the prop libraries the parsed geometry references: each
    /// referenced library name is bound to the identity of the last
    /// discovered prop library that declares that name and whose namespace
    /// covers this map's.  Yields the referenced names that no library
    /// answered, which resolution only warns about.
    pub fn init_proplibs(&mut self, parsed: StaticGeometry, resources: &Vec<ResourceDefinition>)
        -> (unresolved: Vec<String>)
        requires
            old(self).info is Some,
        ensures
            final(self).parsed == Some(parsed),
            final(self).root == old(self).root,
            final(self).info == old(self).info,
            final(self).map == old(self).map,
            final(self).namespace == old(self).namespace,
            libs_keys_unique(final(self).proplibs@),
            libs_map(final(self).proplibs@) == spec_bound(
                resources@,
                parsed.props@,
                map_ns_of(old(self).info),
            ),
            forall|k: int|
                0 <= k < unresolved@.len() ==> spec_referenced(
                    parsed.props@,
                    (#[trigger] unresolved@[k])@,
                ) && !libs_map(final(self).proplibs@).contains_key(unresolved@[k]@),
            forall|j: int|
                0 <= j < parsed.props@.len() && !libs_map(final(self).proplibs@).contains_key(
                    (#[trigger] parsed.props@[j]).library_name@,
                ) ==> exists|k: int|
                    0 <= k < unresolved@.len() && (#[trigger] unresolved@[k])@
                        == parsed.props@[j].library_name@,
    {
        let ghost map_ns = map_ns_of(old(self).info);
        let ghost rviews = resources@;
        let mut bound: Vec<(String, ResourceInfo)> = Vec::new();
        let n = resources.len();
        let mut i: usize = 0;
        while i < n
            invariant
                n == resources@.len(),
                rviews == resources@,
                i <= n,
                self == old(self),
                self.info is Some,
                map_ns == map_ns_of(old(self).info),
                libs_keys_unique(bound@),
                libs_map(bound@) == spec_bound(resources@.take(i as int), parsed.props@, map_ns),
            decreases n - i,
        {
            proof {
                assert(rviews.take(i + 1).drop_last() =~= rviews.take(i as int));
                assert(rviews.take(i + 1).last() == rviews[i as int]);
            }
            match &resources[i] {
                ResourceDefinition::Proplib(p) => {
                    match (&p.name, &p.info) {
                        (Some(lib_name), Some(info)) => {
                            if referenced(&parsed.props, lib_name.as_str()) {
                                let my_info = match &self.info {
                                    Some(mine) => mine,
                                    None => {
                                        proof {
                                            assert(false);
                                        }
                                        return Vec::new();
                                    },
                                };
                                if my_info.namespaces.covered_by(&info.namespaces) {
                                    let fresh = info.duplicate();
                                    proof {
                                        assert(spec_lib_matches(rviews[i as int], lib_name@, map_ns));
                                        assert(info_view_of(fresh) == spec_lib_info(
                                            rviews[i as int],
                                        ));
                                    }
                                    bind_lib(&mut bound, lib_name.clone(), fresh);
                                    proof {
                                        assert(libs_map(bound@) =~= spec_bound(
                                            rviews.take(i + 1),
                                            parsed.props@,
                                            map_ns,
                                        ));
                                    }
                                } else {
                                    proof {
                                        assert(!spec_lib_matches(rviews[i as int], lib_name@, map_ns));
                                    }
                                }
                            } else {
                                proof {
                                    assert(!spec_referenced(parsed.props@, lib_name@));
                                }
                            }
                        },
                        _ => {},
                    }
                },
                _ => {},
            }
            i = i + 1;
        }
        proof {
            assert(rviews.take(n as int) =~= rviews);
        }
        // gather the referenced names that stayed unbound
        let mut unresolved: Vec<String> = Vec::new();
        let np = parsed.props.len();
        let mut j: usize = 0;
        while j < np
            invariant
                np == parsed.props@.len(),
                j <= np,
                forall|k: int|
                    0 <= k < unresolved@.len() ==> spec_referenced(
                        parsed.props@,
                        (#[trigger] unresolved@[k])@,
                    ) && !libs_map(bound@).contains_key(unresolved@[k]@),
                forall|jj: int|
                    0 <= jj < j && !libs_map(bound@).contains_key(
                        (#[trigger] parsed.props@[jj]).library_name@,
                    ) ==> exists|k: int|
                        0 <= k < unresolved@.len() && (#[trigger] unresolved@[k])@
                            == parsed.props@[jj].library_name@,
            decreases np - j,
        {
            let name = &parsed.props[j].library_name;
            if !bound_contains(&bound, name.as_str()) {
                proof {
                    assert(parsed.props@[j as int].library_name@ == name@);
                    assert(spec_referenced(parsed.props@, name@));
                }
                let ghost before = unresolved@;
                unresolved.push(name.clone());
                proof {
                    assert(unresolved@.drop_last() =~= before);
                    assert(forall|k: int|
                        0 <= k < before.len() ==> unresolved@[k] == before[k]);
                    assert(unresolved@[before.len() as int]@ == name@);
                }
            }
            j = j + 1;
        }
        self.parsed = Some(parsed);
        self.proplibs = bound;
        unresolved
    }

    /// The proplibs-reference rows of this map's bundle: each bound
    /// library's name with its id and version in hexadecimal, in binding
    /// order.
    pub fn proplibs_manifest(&self) -> (r: ProplibsXml)
        requires
            forall|i: int|
                0 <= i < self.proplibs@.len() ==> (#[trigger] self.proplibs@[i]).1.id >= 0
                    && self.proplibs@[i].1.version >= 0,
        ensures
            r.libraries@.len() == self.proplibs@.len(),
            forall|i: int|
                0 <= i < self.proplibs@.len() ==> {
                    let e = #[trigger] self.proplibs@[i];
                    &&& r.libraries@[i].name@ == e.0@
                    &&& r.libraries@[i].id@ == crate::num::hex_repr((e.1.id as u64) as nat)
                    &&& r.libraries@[i].version@ == crate::num::hex_repr(
                        (e.1.version as u64) as nat,
                    )
                },
    {
        let n = self.proplibs.len();
        let mut rows: Vec<LibraryXml> = Vec::new();
        let mut i: usize = 0;
        while i < n
            invariant
                n == self.proplibs@.len(),
                i <= n,
                rows@.len() == i,
                forall|k: int|
                    0 <= k < self.proplibs@.len() ==> (#[trigger] self.proplibs@[k]).1.id >= 0
                        && self.proplibs@[k].1.version >= 0,
                forall|k: int|
                    0 <= k < i ==> {
                        let e = #[trigger] self.proplibs@[k];
                        &&& rows@[k].name@ == e.0@
                        &&& rows@[k].id@ == crate::num::hex_repr((e.1.id as u64) as nat)
                        &&& rows@[k].version@ == crate::num::hex_repr((e.1.version as u64) as nat)
                    },
            decreases n - i,
        {
            let entry = &self.proplibs[i];
            rows.push(
                LibraryXml {
                    name: entry.0.clone(),
                    id: crate::num::format_hex_u64(entry.1.id as u64),
                    version: crate::num::format_hex_u64(entry.1.version as u64),
                },
            );
            i = i + 1;
        }
        ProplibsXml { libraries: rows }
    }

    /// The identities of the bound prop libraries, in binding order, as
    /// the private map document lists them.
    pub fn proplib_infos(&self) -> (r: Vec<ResourceInfo>)
        ensures
            r@.len() == self.proplibs@.len(),
            forall|i: int|
                0 <= i < self.proplibs@.len() ==> info_view_of(#[trigger] r@[i]) == info_view_of(
                    self.proplibs@[i].1,
                ),
    {
        let n = self.proplibs.len();
        let mut out: Vec<ResourceInfo> = Vec::new();
        let mut i: usize = 0;
        while i < n
            invariant
                n == self.proplibs@.len(),
                i <= n,
                out@.len() == i,
                forall|k: int|
                    0 <= k < i ==> info_view_of(#[trigger] out@[k]) == info_view_of(
                        self.proplibs@[k].1,
                    ),
            decreases n - i,
        {
            out.push(self.proplibs[i].1.duplicate());
            i = i + 1;
        }
        out
    }
}

} // verus!
