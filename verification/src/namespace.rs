use vstd::prelude::*;

use crate::text::str_eq;

verus! {

/// The key/value tag set cut out of `@key=value` path segments.  Variant
/// resources (the same library for another theme or generation) carry equal
/// namespaces, and a map resolves only against libraries whose namespace
/// covers its own.
#[derive(Clone)]
pub struct Namespace {
    entries: Vec<(String, String)>,
}

/// The mapping described by a run of insertions, later entries shadowing
/// earlier ones.
pub open spec fn map_of(s: Seq<(String, String)>) -> Map<Seq<char>, Seq<char>>
    decreases s.len(),
{
    if s.len() == 0 {
        Map::empty()
    } else {
        map_of(s.drop_last()).insert(s.last().0@, s.last().1@)
    }
}

proof fn lemma_map_of_contains(s: Seq<(String, String)>, k: Seq<char>)
    ensures
        map_of(s).contains_key(k) <==> exists|i: int| 0 <= i < s.len() && s[i].0@ == k,
    decreases s.len(),
{
    if s.len() > 0 {
        lemma_map_of_contains(s.drop_last(), k);
        if map_of(s).contains_key(k) {
            if s.last().0@ == k {
                assert(s[s.len() - 1].0@ == k);
            } else {
                let i = choose|i: int| 0 <= i < s.len() - 1 && s.drop_last()[i].0@ == k;
                assert(s[i].0@ == k);
            }
        }
        if exists|i: int| 0 <= i < s.len() && s[i].0@ == k {
            let i = choose|i: int| 0 <= i < s.len() && s[i].0@ == k;
            if i < s.len() - 1 {
                assert(s.drop_last()[i].0@ == k);
            }
        }
    }
}

proof fn lemma_map_of_suffix_absent(s: Seq<(String, String)>, i: int, k: Seq<char>)
    requires
        0 <= i <= s.len(),
        forall|j: int| i <= j < s.len() ==> s[j].0@ != k,
    ensures
        map_of(s).contains_key(k) == map_of(s.take(i)).contains_key(k),
        map_of(s).contains_key(k) ==> map_of(s)[k] == map_of(s.take(i))[k],
    decreases s.len() - i,
{
    if i < s.len() {
        assert(s.drop_last() =~= s.take(s.len() - 1));
        lemma_map_of_suffix_absent(s.take(s.len() - 1), i, k);
        assert(s.take(s.len() - 1).take(i) =~= s.take(i));
    } else {
        assert(s.take(i) =~= s);
    }
}

proof fn lemma_map_of_found(s: Seq<(String, String)>, i: int)
    requires
        0 <= i < s.len(),
        forall|j: int| i < j < s.len() ==> s[j].0@ != s[i].0@,
    ensures
        map_of(s).contains_key(s[i].0@),
        map_of(s)[s[i].0@] == s[i].1@,
{
    let k = s[i].0@;
    lemma_map_of_suffix_absent(s, i + 1, k);
    assert(s.take(i + 1).last() == s[i]);
    assert(map_of(s.take(i + 1)) == map_of(s.take(i + 1).drop_last()).insert(s[i].0@, s[i].1@));
}

impl Namespace {
    /// The mapping this namespace denotes.
    pub closed spec fn view(&self) -> Map<Seq<char>, Seq<char>> {
        map_of(self.entries@)
    }

    /// The empty namespace.
    pub fn new() -> (r: Namespace)
        ensures
            r@ == Map::<Seq<char>, Seq<char>>::empty(),
    {
        Namespace { entries: Vec::new() }
    }

    /// Binds a key to a value, replacing any earlier binding of the same key.
    pub fn insert(&mut self, key: String, value: String)
        ensures
            final(self)@ == old(self)@.insert(key@, value@),
    {
        self.entries.push((key, value));
        proof {
            assert(self.entries@.drop_last() =~= old(self).entries@);
        }
    }

    /// Looks a key up.
    pub fn get(&self, key: &str) -> (r: Option<&String>)
        ensures
            match r {
                Some(v) => self@.contains_key(key@) && self@[key@] == v@,
                None => !self@.contains_key(key@),
            },
    {
        let n = self.entries.len();
        let mut i: usize = n;
        while i > 0
            invariant
                n == self.entries@.len(),
                i <= n,
                forall|j: int| i <= j < n ==> self.entries@[j].0@ != key@,
            decreases i,
        {
            i = i - 1;
            if str_eq(self.entries[i].0.as_str(), key) {
                proof {
                    lemma_map_of_found(self.entries@, i as int);
                }
                return Some(&self.entries[i].1);
            }
        }
        proof {
            lemma_map_of_contains(self.entries@, key@);
        }
        None
    }

    /// True when the key is bound.
    pub fn contains_key(&self, key: &str) -> (r: bool)
        ensures
            r == self@.contains_key(key@),
    {
        match self.get(key) {
            Some(_) => true,
            None => false,
        }
    }

    /// True when every binding of this namespace also stands in the other:
    /// the scoping test between a map and a candidate library.
    pub fn covered_by(&self, other: &Namespace) -> (r: bool)
        ensures
            r == self@.submap_of(other@),
    {
        let n = self.entries.len();
        let mut i: usize = 0;
        while i < n
            invariant
                n == self.entries@.len(),
                i <= n,
                forall|k: int|
                    0 <= k < i ==> other@.contains_key(#[trigger] self.entries@[k].0@)
                        && self@.contains_key(self.entries@[k].0@) && other@[self.entries@[k].0@]
                        == self@[self.entries@[k].0@],
            decreases n - i,
        {
            let ghost gkey = self.entries@[i as int].0@;
            let key = self.entries[i].0.as_str();
            proof {
                assert(self.entries@[i as int].0@ == gkey);
                lemma_map_of_contains(self.entries@, gkey);
            }
            let mine = match self.get(key) {
                Some(v) => v,
                None => {
                    // unreachable: the key at index i is certainly bound
                    return false;
                },
            };
            match other.get(key) {
                Some(theirs) => {
                    if !str_eq(theirs.as_str(), mine.as_str()) {
                        assert(self@[gkey] != other@[gkey]);
                        return false;
                    }
                },
                None => {
                    assert(self@.contains_key(gkey) && !other@.contains_key(gkey));
                    return false;
                },
            }
            i = i + 1;
        }
        proof {
            assert forall|k: Seq<char>| #[trigger]
                self@.dom().contains(k) implies other@.dom().contains(k) && self@[k]
                == other@[k] by {
                lemma_map_of_contains(self.entries@, k);
                let j = choose|j: int| 0 <= j < self.entries@.len() && self.entries@[j].0@ == k;
                assert(other@.contains_key(self.entries@[j].0@));
            }
            assert(self@.submap_of(other@));
        }
        true
    }

    /// True when the two namespaces bind exactly the same keys to the same
    /// values.
    pub fn same_as(&self, other: &Namespace) -> (r: bool)
        ensures
            r == (self@ =~= other@),
    {
        let forward = self.covered_by(other);
        let backward = other.covered_by(self);
        proof {
            self@.lemma_submap_eq_iff(other@);
        }
        forward && backward
    }

    /// The bindings of this namespace, one pair per key: every pair is a
    /// live binding, no key repeats, and every bound key appears.
    pub fn to_pairs(&self) -> (r: Vec<(String, String)>)
        ensures
            forall|i: int, j: int| 0 <= i < j < r@.len() ==> r@[i].0@ != r@[j].0@,
            forall|i: int|
                0 <= i < r@.len() ==> self@.contains_key((#[trigger] r@[i]).0@) && self@[r@[i].0@]
                    == r@[i].1@,
            forall|k: Seq<char>|
                self@.contains_key(k) ==> exists|i: int| 0 <= i < r@.len() && (#[trigger] r@[i]).0@
                    == k,
    {
        let n = self.entries.len();
        let mut out: Vec<(String, String)> = Vec::new();
        let mut i: usize = n;
        while i > 0
            invariant
                n == self.entries@.len(),
                i <= n,
                forall|a: int, b: int| 0 <= a < b < out@.len() ==> out@[a].0@ != out@[b].0@,
                forall|a: int|
                    0 <= a < out@.len() ==> self@.contains_key((#[trigger] out@[a]).0@)
                        && self@[out@[a].0@] == out@[a].1@,
                forall|j: int|
                    i <= j < n ==> exists|a: int|
                        0 <= a < out@.len() && (#[trigger] out@[a]).0@ == (
                        #[trigger] self.entries@[j]).0@,
            decreases i,
        {
            i = i - 1;
            let key = self.entries[i].0.as_str();
            let mut seen = false;
            let m = out.len();
            let mut a: usize = 0;
            while a < m
                invariant
                    m == out@.len(),
                    a <= m,
                    key@ == self.entries@[i as int].0@,
                    seen ==> exists|x: int|
                        0 <= x < out@.len() && (#[trigger] out@[x]).0@ == key@,
                    !seen ==> forall|x: int| 0 <= x < a ==> (#[trigger] out@[x]).0@ != key@,
                decreases m - a,
            {
                if str_eq(out[a].0.as_str(), key) {
                    seen = true;
                }
                a = a + 1;
            }
            if !seen {
                // the key's last occurrence: every later entry was already
                // taken into the output, and none carries this key
                proof {
                    assert forall|j: int| i < j < n implies self.entries@[j].0@ != key@ by {
                        let x = choose|x: int|
                            0 <= x < out@.len() && (#[trigger] out@[x]).0@
                                == self.entries@[j].0@;
                        if self.entries@[j].0@ == key@ {
                            assert(out@[x].0@ == key@);
                        }
                    }
                    lemma_map_of_found(self.entries@, i as int);
                }
                let ghost before = out@;
                out.push((self.entries[i].0.clone(), self.entries[i].1.clone()));
                proof {
                    assert(forall|x: int| 0 <= x < before.len() ==> out@[x] == before[x]);
                    assert(out@[before.len() as int].0@ == self.entries@[i as int].0@);
                }
            }
        }
        proof {
            assert forall|k: Seq<char>| self@.contains_key(k) implies exists|x: int|
                0 <= x < out@.len() && (#[trigger] out@[x]).0@ == k by {
                lemma_map_of_contains(self.entries@, k);
                let j = choose|j: int| 0 <= j < self.entries@.len() && self.entries@[j].0@ == k;
                assert(exists|a: int|
                    0 <= a < out@.len() && (#[trigger] out@[a]).0@ == self.entries@[j].0@);
            }
        }
        out
    }

    /// An equal copy.
    pub fn duplicate(&self) -> (r: Namespace)
        ensures
            r@ == self@,
    {
        let n = self.entries.len();
        let mut out: Vec<(String, String)> = Vec::new();
        let mut i: usize = 0;
        while i < n
            invariant
                n == self.entries@.len(),
                i <= n,
                out@ =~= self.entries@.take(i as int),
            decreases n - i,
        {
            out.push((self.entries[i].0.clone(), self.entries[i].1.clone()));
            i = i + 1;
        }
        proof {
            assert(out@ =~= self.entries@);
        }
        Namespace { entries: out }
    }
}

} // verus!
