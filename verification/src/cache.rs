use vstd::prelude::*;

use crate::digest::InputFile;
use crate::text::str_eq;

verus! {

/// The persisted modification-time cache: one entry per input file, keyed by
/// the file's path relative to the source root, holding the modification
/// time in milliseconds last seen for it.
pub struct CacheMap {
    entries: Vec<(String, u128)>,
}

/// The mapping described by a run of insertions, later entries shadowing
/// earlier ones.
pub open spec fn mtimes_of(s: Seq<(String, u128)>) -> Map<Seq<char>, u128>
    decreases s.len(),
{
    if s.len() == 0 {
        Map::empty()
    } else {
        mtimes_of(s.drop_last()).insert(s.last().0@, s.last().1)
    }
}

proof fn lemma_mtimes_contains(s: Seq<(String, u128)>, k: Seq<char>)
    ensures
        mtimes_of(s).contains_key(k) <==> exists|i: int| 0 <= i < s.len() && s[i].0@ == k,
    decreases s.len(),
{
    if s.len() > 0 {
        lemma_mtimes_contains(s.drop_last(), k);
        if mtimes_of(s).contains_key(k) {
            if s.last().0@ == k {
                assert(s[s.len() - 1].0@ == k);
            } else {
                let i = choose|i: int| 0 <= i < s.len() - 1 && s.drop_last()[i].0@ == k;
                assert(s[i].0@ == k);
            }
        }
        if exists|i: int| 0 <= i < s.len() && s[i].0@ == k {
            let i = choose|i: int| 0 <= i < s.len() && s[i].0@ == k;
            if i < s.len() - 1 {
                assert(s.drop_last()[i].0@ == k);
            }
        }
    }
}

proof fn lemma_mtimes_at(s: Seq<(String, u128)>, i: int)
    requires
        cache_keys_unique(s),
        0 <= i < s.len(),
    ensures
        mtimes_of(s).contains_key(s[i].0@),
        mtimes_of(s)[s[i].0@] == s[i].1,
    decreases s.len(),
{
    if i == s.len() - 1 {
    } else {
        assert(cache_keys_unique(s.drop_last()));
        assert(s.drop_last()[i] == s[i]);
        lemma_mtimes_at(s.drop_last(), i);
        assert(s[i].0@ != s.last().0@);
    }
}

proof fn lemma_mtimes_update(s: Seq<(String, u128)>, i: int, k: String, v: u128)
    requires
        cache_keys_unique(s),
        0 <= i < s.len(),
        k@ == s[i].0@,
    ensures
        mtimes_of(s.update(i, (k, v))) =~= mtimes_of(s).insert(s[i].0@, v),
    decreases s.len(),
{
    let t = s.update(i, (k, v));
    if i == s.len() - 1 {
        assert(t.drop_last() =~= s.drop_last());
        assert(t.last() == (k, v));
    } else {
        assert(cache_keys_unique(s.drop_last()));
        assert(s.drop_last()[i] == s[i]);
        lemma_mtimes_update(s.drop_last(), i, k, v);
        assert(t.drop_last() =~= s.drop_last().update(i, (k, v)));
        assert(t.last() == s.last());
        assert(s[i].0@ != s.last().0@);
    }
}

/// No two cache entries carry the same path.
pub open spec fn cache_keys_unique(s: Seq<(String, u128)>) -> bool {
    forall|i: int, j: int| 0 <= i < j < s.len() ==> s[i].0@ != s[j].0@
}

impl CacheMap {
    /// The mapping this cache denotes.
    pub closed spec fn view(&self) -> Map<Seq<char>, u128> {
        mtimes_of(self.entries@)
    }

    /// One entry per path.
    pub closed spec fn wf(&self) -> bool {
        cache_keys_unique(self.entries@)
    }

    /// The entries in persisted order, for stating what serialization
    /// writes.
    pub closed spec fn entry_views(&self) -> Seq<(Seq<char>, u128)> {
        self.entries@.map_values(|e: (String, u128)| (e.0@, e.1))
    }

    /// The empty cache, as loading a missing cache file yields it.
    pub fn new() -> (r: CacheMap)
        ensures
            r@ == Map::<Seq<char>, u128>::empty(),
            r.wf(),
            r.entry_views() == Seq::<(Seq<char>, u128)>::empty(),
    {
        let r = CacheMap { entries: Vec::new() };
        proof {
            assert(r.entry_views() =~= Seq::<(Seq<char>, u128)>::empty());
        }
        r
    }

    /// Records the modification time seen for a file, replacing any earlier
    /// record for the same path.
    pub fn record(&mut self, path: String, mtime: u128)
        requires
            old(self).wf(),
        ensures
            final(self).wf(),
            final(self)@ == old(self)@.insert(path@, mtime),
    {
        let n = self.entries.len();
        let mut i: usize = 0;
        while i < n
            invariant
                n == self.entries@.len(),
                i <= n,
                cache_keys_unique(self.entries@),
                self.entries@ == old(self).entries@,
                forall|k: int| 0 <= k < i ==> self.entries@[k].0@ != path@,
            decreases n - i,
        {
            if str_eq(self.entries[i].0.as_str(), path.as_str()) {
                proof {
                    lemma_mtimes_update(self.entries@, i as int, path, mtime);
                }
                let ghost old_entries = self.entries@;
                let ghost gpath = path;
                self.entries[i] = (path, mtime);
                proof {
                    assert(self.entries@ =~= old_entries.update(i as int, (gpath, mtime)));
                    assert(cache_keys_unique(self.entries@));
                }
                return ;
            }
            i = i + 1;
        }
        self.entries.push((path, mtime));
        proof {
            assert(self.entries@.drop_last() =~= old(self).entries@);
        }
    }

    /// The modification time last seen for a path, if one was recorded.
    pub fn get(&self, path: &str) -> (r: Option<u128>)
        requires
            self.wf(),
        ensures
            match r {
                Some(v) => self@.contains_key(path@) && self@[path@] == v,
                None => !self@.contains_key(path@),
            },
    {
        let n = self.entries.len();
        let mut i: usize = 0;
        while i < n
            invariant
                n == self.entries@.len(),
                i <= n,
                cache_keys_unique(self.entries@),
                forall|k: int| 0 <= k < i ==> self.entries@[k].0@ != path@,
            decreases n - i,
        {
            if str_eq(self.entries[i].0.as_str(), path) {
                proof {
                    lemma_mtimes_at(self.entries@, i as int);
                }
                return Some(self.entries[i].1);
            }
            i = i + 1;
        }
        proof {
            lemma_mtimes_contains(self.entries@, path@);
        }
        None
    }
}

/// Characters that line trimming removes at either end.
pub open spec fn is_trim_char(c: char) -> bool {
    c == ' ' || c == '\t' || c == '\r'
}

/// The sequence with trimmable characters removed from the front.
pub open spec fn spec_trim_front(s: Seq<char>) -> Seq<char>
    decreases s.len(),
{
    if s.len() > 0 && is_trim_char(s[0]) {
        spec_trim_front(s.drop_first())
    } else {
        s
    }
}

/// The sequence with trimmable characters removed from the back.
pub open spec fn spec_trim_back(s: Seq<char>) -> Seq<char>
    decreases s.len(),
{
    if s.len() > 0 && is_trim_char(s.last()) {
        spec_trim_back(s.drop_last())
    } else {
        s
    }
}

/// The sequence with trimmable characters removed from both ends.
pub open spec fn spec_trim(s: Seq<char>) -> Seq<char> {
    spec_trim_back(spec_trim_front(s))
}

proof fn lemma_trim_front_skip(s: Seq<char>, a: int)
    requires
        0 <= a <= s.len(),
        forall|k: int| 0 <= k < a ==> is_trim_char(s[k]),
        a < s.len() ==> !is_trim_char(s[a]),
    ensures
        spec_trim_front(s) =~= s.skip(a),
    decreases a,
{
    if a == 0 {
        assert(s.skip(0) =~= s);
    } else {
        assert(is_trim_char(s[0]));
        lemma_trim_front_skip(s.drop_first(), a - 1);
        assert(s.drop_first().skip(a - 1) =~= s.skip(a));
    }
}

proof fn lemma_trim_back_take(s: Seq<char>, b: int)
    requires
        0 <= b <= s.len(),
        forall|k: int| b <= k < s.len() ==> is_trim_char(s[k]),
        b > 0 ==> !is_trim_char(s[b - 1]),
    ensures
        spec_trim_back(s) =~= s.take(b),
    decreases s.len() - b,
{
    if b == s.len() {
        assert(s.take(b) =~= s);
    } else {
        assert(is_trim_char(s.last()));
        lemma_trim_back_take(s.drop_last(), b);
        assert(s.drop_last().take(b) =~= s.take(b));
    }
}

fn scan_trim_front(s: &str) -> (a: usize)
    ensures
        a <= s@.len(),
        forall|k: int| 0 <= k < a ==> is_trim_char(s@[k]),
        a < s@.len() ==> !is_trim_char(s@[a as int]),
{
    let len = s.unicode_len();
    let mut a: usize = 0;
    while a < len
        invariant
            a <= len,
            len == s@.len(),
            forall|k: int| 0 <= k < a ==> is_trim_char(s@[k]),
        decreases len - a,
    {
        let c = s.get_char(a);
        if !(c == ' ' || c == '\t' || c == '\r') {
            return a;
        }
        a = a + 1;
    }
    a
}

fn scan_trim_back(s: &str, a: usize) -> (b: usize)
    requires
        a < s@.len(),
        !is_trim_char(s@[a as int]),
    ensures
        a < b <= s@.len(),
        forall|k: int| b <= k < s@.len() ==> is_trim_char(s@[k]),
        !is_trim_char(s@[b - 1]),
{
    let len = s.unicode_len();
    let mut b: usize = len;
    while b > a + 1
        invariant
            a < b <= len,
            len == s@.len(),
            forall|k: int| b <= k < len ==> is_trim_char(s@[k]),
        decreases b,
    {
        let c = s.get_char(b - 1);
        if !(c == ' ' || c == '\t' || c == '\r') {
            return b;
        }
        b = b - 1;
    }
    b
}

/// Removes spaces, tabs and carriage returns from both ends of a line.
pub fn trim_line(s: &str) -> (r: String)
    ensures
        r@ == spec_trim(s@),
{
    let len = s.unicode_len();
    let a = scan_trim_front(s);
    proof {
        lemma_trim_front_skip(s@, a as int);
    }
    if a == len {
        proof {
            assert(s@.skip(a as int) =~= Seq::<char>::empty());
        }
        return String::new();
    }
    let b = scan_trim_back(s, a);
    proof {
        lemma_trim_back_take(s@.skip(a as int), b - a);
        assert(s@.skip(a as int).take(b - a) =~= s@.subrange(a as int, b as int));
    }
    s.substring_char(a, b).to_owned()
}

/// True when the line separator `": "` stands at this index.
pub open spec fn sep_at(s: Seq<char>, i: int) -> bool {
    0 <= i && i + 1 < s.len() && s[i] == ':' && s[i + 1] == ' '
}

/// Finds the first `": "` in a line, as str::split_once does.
pub fn find_sep(s: &str) -> (r: Option<usize>)
    ensures
        match r {
            Some(i) => sep_at(s@, i as int) && forall|k: int| 0 <= k < i ==> !sep_at(s@, k),
            None => forall|k: int| 0 <= k < s@.len() ==> !sep_at(s@, k),
        },
{
    let len = s.unicode_len();
    if len < 2 {
        return None;
    }
    let mut i: usize = 0;
    while i < len - 1
        invariant
            2 <= len == s@.len(),
            i <= len,
            forall|k: int| 0 <= k < i ==> !sep_at(s@, k),
        decreases len - i,
    {
        if s.get_char(i) == ':' && s.get_char(i + 1) == ' ' {
            return Some(i);
        }
        i = i + 1;
    }
    None
}

/// What one trimmed cache line contributes: nothing when it has no `": "`
/// separator; otherwise the path before the first separator bound to the
/// decimal value after it, or a malformed-line error when that value is not
/// a decimal number that fits.
pub open spec fn spec_parse_line(m: Map<Seq<char>, u128>, line: Seq<char>) -> Option<
    Map<Seq<char>, u128>,
> {
    let l = spec_trim(line);
    if forall|k: int| 0 <= k < l.len() ==> !sep_at(l, k) {
        Some(m)
    } else {
        let i = choose|i: int| sep_at(l, i) && forall|k: int| 0 <= k < i ==> !sep_at(l, k);
        let key = l.take(i);
        let digits = l.skip(i + 2);
        if digits.len() > 0 && crate::num::all_dec_digits(digits) && crate::num::dec_value(digits)
            <= u128::MAX {
            Some(m.insert(key, crate::num::dec_value(digits) as u128))
        } else {
            None
        }
    }
}

/// The mapping a cache file's lines describe, read top to bottom; None when
/// some line carries a malformed value.
pub open spec fn spec_parse_lines(lines: Seq<Seq<char>>) -> Option<Map<Seq<char>, u128>>
    decreases lines.len(),
{
    if lines.len() == 0 {
        Some(Map::empty())
    } else {
        match spec_parse_lines(lines.drop_last()) {
            Some(m) => spec_parse_line(m, lines.last()),
            None => None,
        }
    }
}

/// The mapping a persisted cache file describes.
pub open spec fn spec_parse_cache(text: Seq<char>) -> Option<Map<Seq<char>, u128>> {
    spec_parse_lines(crate::text::spec_split(text, '\n'))
}

proof fn lemma_sep_unique(l: Seq<char>, i: int)
    requires
        sep_at(l, i),
        forall|k: int| 0 <= k < i ==> !sep_at(l, k),
    ensures
        (choose|j: int| sep_at(l, j) && forall|k: int| 0 <= k < j ==> !sep_at(l, k)) == i,
{
    let j = choose|j: int| sep_at(l, j) && forall|k: int| 0 <= k < j ==> !sep_at(l, k);
    if j < i {
        assert(!sep_at(l, j));
    }
    if i < j {
        assert(!sep_at(l, i));
    }
}

proof fn lemma_parse_lines_none_prefix(lines: Seq<Seq<char>>, j: int)
    requires
        0 <= j <= lines.len(),
        spec_parse_lines(lines.take(j)) is None,
    ensures
        spec_parse_lines(lines) is None,
    decreases lines.len() - j,
{
    if j < lines.len() {
        assert(lines.take(j + 1).drop_last() =~= lines.take(j));
        lemma_parse_lines_none_prefix(lines, j + 1);
    } else {
        assert(lines.take(j) =~= lines);
    }
}

/// Reads a persisted cache file.  Yields the recorded mapping, or None for
/// a line whose value part is not a decimal number that fits.
#[verifier::rlimit(50)]
pub fn parse_cache(text: &str) -> (r: Option<CacheMap>)
    ensures
        match r {
            Some(c) => {
                &&& c.wf()
                &&& spec_parse_cache(text@) == Some(c@)
            },
            None => spec_parse_cache(text@) is None,
        },
{
    let lines = crate::text::split_char(text, '\n');
    let ghost lviews = lines@.map_values(|p: String| p@);
    let n = lines.len();
    let mut cache = CacheMap::new();
    proof {
        assert(spec_parse_lines(lviews.take(0int)) == Some(cache@));
    }
    let mut i: usize = 0;
    while i < n
        invariant
            n == lines@.len(),
            lviews == lines@.map_values(|p: String| p@),
            lviews == crate::text::spec_split(text@, '\n'),
            i <= n,
            cache.wf(),
            spec_parse_lines(lviews.take(i as int)) == Some(cache@),
        decreases n - i,
    {
        proof {
            assert(lviews.take(i + 1).drop_last() =~= lviews.take(i as int));
            assert(lviews.take(i + 1).last() == lviews[i as int]);
        }
        let ghost m0 = cache@;
        let line = trim_line(lines[i].as_str());
        proof {
            assert(line@ == spec_trim(lviews[i as int]));
        }
        let llen = line.as_str().unicode_len();
        match find_sep(line.as_str()) {
            Some(p) => {
                proof {
                    lemma_sep_unique(line@, p as int);
                }
                let key = line.as_str().substring_char(0, p).to_owned();
                let digits = line.as_str().substring_char(p + 2, llen);
                proof {
                    assert(key@ =~= line@.take(p as int));
                    assert(digits@ =~= line@.skip(p + 2));
                }
                match crate::num::parse_u128(digits) {
                    Some(v) => {
                        proof {
                            assert(v as int == crate::num::dec_value(digits@));
                            assert(spec_parse_line(m0, lviews[i as int]) == Some(
                                m0.insert(key@, v),
                            ));
                        }
                        cache.record(key, v);
                        proof {
                            assert(spec_parse_lines(lviews.take(i + 1)) == Some(cache@));
                        }
                    },
                    None => {
                        proof {
                            assert(spec_parse_line(m0, lviews[i as int]) is None);
                            assert(spec_parse_lines(lviews.take(i + 1)) is None);
                            lemma_parse_lines_none_prefix(lviews, i + 1);
                        }
                        return None;
                    },
                }
            },
            None => {
                proof {
                    assert(spec_parse_line(m0, lviews[i as int]) == Some(m0));
                }
            },
        }
        i = i + 1;
    }
    proof {
        assert(lviews.take(n as int) =~= lviews);
    }
    Some(cache)
}

/// The body of one persisted cache line: the path, the separator, and the
/// decimal value.
pub open spec fn spec_line_body(e: (Seq<char>, u128)) -> Seq<char> {
    e.0 + seq![':', ' '] + crate::num::dec_repr(e.1 as nat)
}

/// One persisted cache line: its body and a line feed.
pub open spec fn spec_cache_line(e: (Seq<char>, u128)) -> Seq<char> {
    spec_line_body(e) + seq!['\n']
}

/// The persisted form of a run of cache entries.
pub open spec fn spec_cache_text(es: Seq<(Seq<char>, u128)>) -> Seq<char>
    decreases es.len(),
{
    if es.len() == 0 {
        Seq::empty()
    } else {
        spec_cache_text(es.drop_last()) + spec_cache_line(es.last())
    }
}

impl CacheMap {
    /// Writes the cache in its persisted line form, one entry per line.
    pub fn serialize(&self) -> (r: String)
        ensures
            r@ == spec_cache_text(self.entry_views()),
    {
        let ghost evs = self.entry_views();
        let n = self.entries.len();
        let mut out = String::new();
        let mut i: usize = 0;
        while i < n
            invariant
                n == self.entries@.len(),
                evs == self.entry_views(),
                i <= n,
                out@ =~= spec_cache_text(evs.take(i as int)),
            decreases n - i,
        {
            proof {
                assert(evs.take(i + 1).drop_last() =~= evs.take(i as int));
                assert(evs.take(i + 1).last() == evs[i as int]);
                reveal_strlit(": ");
                reveal_strlit("\n");
            }
            out.append(self.entries[i].0.as_str());
            out.append(": ");
            let digits = crate::num::format_dec_u128(self.entries[i].1);
            out.append(digits.as_str());
            out.append("\n");
            proof {
                assert((": ")@ =~= seq![':', ' ']);
                assert(("\n")@ =~= seq!['\n']);
                assert(out@ =~= spec_cache_text(evs.take(i as int)) + spec_cache_line(
                    evs[i as int],
                ));
            }
            i = i + 1;
        }
        proof {
            assert(evs.take(n as int) =~= evs);
        }
        out
    }
}

/// A resource's inputs have changed when some input file that is not a
/// directory is new to the cache or carries another modification time than
/// the cache remembers.
pub open spec fn spec_changed(m: Map<Seq<char>, u128>, files: Seq<InputFile>) -> bool {
    exists|i: int|
        0 <= i < files.len() && !(#[trigger] files[i]).is_dir && (!m.contains_key(files[i].path@)
            || m[files[i].path@] != files[i].mtime)
}

/// Decides whether a resource's inputs changed since the cached run.
pub fn is_changed(cache: &CacheMap, files: &Vec<InputFile>) -> (r: bool)
    requires
        cache.wf(),
    ensures
        r == spec_changed(cache@, files@),
{
    let n = files.len();
    let mut i: usize = 0;
    while i < n
        invariant
            cache.wf(),
            n == files@.len(),
            i <= n,
            forall|k: int|
                0 <= k < i ==> (#[trigger] files@[k]).is_dir || (cache@.contains_key(
                    files@[k].path@,
                ) && cache@[files@[k].path@] == files@[k].mtime),
        decreases n - i,
    {
        if !files[i].is_dir {
            match cache.get(files[i].path.as_str()) {
                Some(cached) => {
                    if cached != files[i].mtime {
                        return true;
                    }
                },
                None => {
                    return true;
                },
            }
        }
        i = i + 1;
    }
    false
}

/// Records the observed modification time of every input file that is not a
/// directory, as the run does while scanning a resource.
pub fn record_mtimes(cache: &mut CacheMap, files: &Vec<InputFile>)
    requires
        old(cache).wf(),
    ensures
        final(cache).wf(),
        final(cache)@ == spec_recorded(old(cache)@, files@),
{
    let n = files.len();
    let mut i: usize = 0;
    while i < n
        invariant
            cache.wf(),
            n == files@.len(),
            i <= n,
            cache@ == spec_recorded(old(cache)@, files@.take(i as int)),
        decreases n - i,
    {
        proof {
            assert(files@.take(i + 1).drop_last() =~= files@.take(i as int));
            assert(files@.take(i + 1).last() == files@[i as int]);
        }
        if !files[i].is_dir {
            cache.record(files[i].path.clone(), files[i].mtime);
        }
        i = i + 1;
    }
    proof {
        assert(files@.take(n as int) =~= files@);
    }
}

/// The cache after the modification times of the given files are recorded
/// over an earlier state.
pub open spec fn spec_recorded(m: Map<Seq<char>, u128>, files: Seq<InputFile>) -> Map<
    Seq<char>,
    u128,
>
    decreases files.len(),
{
    if files.len() == 0 {
        m
    } else {
        let rest = spec_recorded(m, files.drop_last());
        if files.last().is_dir {
            rest
        } else {
            rest.insert(files.last().path@, files.last().mtime)
        }
    }
}

/// A path the cache can persist and read back: free of line feeds, free of
/// the `": "` separator, and not beginning with a trimmable character.
pub open spec fn wf_cache_path(p: Seq<char>) -> bool {
    &&& forall|k: int| 0 <= k < p.len() ==> p[k] != '\n'
    &&& forall|k: int| 0 <= k < p.len() ==> !sep_at(p, k)
    &&& p.len() > 0 ==> !is_trim_char(p[0])
}

proof fn lemma_split_append_nosep(s: Seq<char>, t: Seq<char>, c: char)
    requires
        forall|k: int| 0 <= k < t.len() ==> t[k] != c,
    ensures
        crate::text::spec_split(s + t, c) =~= crate::text::spec_split(s, c).update(
            crate::text::spec_split(s, c).len() - 1,
            crate::text::spec_split(s, c).last() + t,
        ),
    decreases t.len(),
{
    crate::text::spec_split_len(s, c);
    if t.len() == 0 {
        assert(s + t =~= s);
        assert(crate::text::spec_split(s, c).last() + t =~= crate::text::spec_split(s, c).last());
        assert(crate::text::spec_split(s, c).update(
            crate::text::spec_split(s, c).len() - 1,
            crate::text::spec_split(s, c).last(),
        ) =~= crate::text::spec_split(s, c));
    } else {
        let t0 = t.drop_last();
        let x = t.last();
        lemma_split_append_nosep(s, t0, c);
        assert(s + t =~= (s + t0).push(x));
        let sp = crate::text::spec_split(s, c);
        let sp0 = crate::text::spec_split(s + t0, c);
        crate::text::spec_split_len(s + t0, c);
        assert(x != c);
        assert((s + t).drop_last() =~= s + t0);
        assert(crate::text::spec_split(s + t, c) =~= sp0.update(sp0.len() - 1, sp0.last().push(x)));
        assert(sp0 =~= sp.update(sp.len() - 1, sp.last() + t0));
        assert(sp0.last() =~= sp.last() + t0);
        assert(sp.last() + t =~= (sp.last() + t0).push(x));
    }
}

proof fn lemma_split_push_sep(s: Seq<char>, c: char)
    ensures
        crate::text::spec_split(s.push(c), c) =~= crate::text::spec_split(s, c).push(
            Seq::<char>::empty(),
        ),
{
    assert(s.push(c).drop_last() =~= s);
}

/// The mapping a run of entries describes, later entries shadowing earlier
/// ones.
pub open spec fn cache_map_of(es: Seq<(Seq<char>, u128)>) -> Map<Seq<char>, u128>
    decreases es.len(),
{
    if es.len() == 0 {
        Map::empty()
    } else {
        cache_map_of(es.drop_last()).insert(es.last().0, es.last().1)
    }
}

proof fn lemma_cache_text_split(es: Seq<(Seq<char>, u128)>)
    requires
        forall|i: int| 0 <= i < es.len() ==> wf_cache_path((#[trigger] es[i]).0),
    ensures
        crate::text::spec_split(spec_cache_text(es), '\n') =~= es.map_values(
            |e: (Seq<char>, u128)| spec_line_body(e),
        ).push(Seq::<char>::empty()),
    decreases es.len(),
{
    if es.len() == 0 {
        assert(spec_cache_text(es) =~= Seq::<char>::empty());
        assert(es.map_values(|e: (Seq<char>, u128)| spec_line_body(e)).push(Seq::<char>::empty())
            =~= seq![Seq::<char>::empty()]);
    } else {
        let es0 = es.drop_last();
        let e = es.last();
        lemma_cache_text_split(es0);
        let text0 = spec_cache_text(es0);
        let body = spec_line_body(e);
        crate::num::lemma_dec_roundtrip(e.1 as nat);
        assert(forall|k: int| 0 <= k < body.len() ==> body[k] != '\n') by {
            assert forall|k: int| 0 <= k < body.len() implies body[k] != '\n' by {
                if k < e.0.len() {
                    assert(body[k] == e.0[k]);
                } else if k < e.0.len() + 2 {
                } else {
                    let d = crate::num::dec_repr(e.1 as nat);
                    assert(body[k] == d[k - e.0.len() - 2]);
                    assert(crate::num::is_dec_digit(d[k - e.0.len() - 2]));
                }
            }
        }
        lemma_split_append_nosep(text0, body, '\n');
        lemma_split_push_sep(text0 + body, '\n');
        assert(spec_cache_text(es) =~= (text0 + body).push('\n'));
        let m0 = es0.map_values(|x: (Seq<char>, u128)| spec_line_body(x));
        let sp0 = crate::text::spec_split(text0, '\n');
        assert(sp0 =~= m0.push(Seq::<char>::empty()));
        assert(sp0.last() =~= Seq::<char>::empty());
        assert(sp0.last() + body =~= body);
        assert(crate::text::spec_split(text0 + body, '\n') =~= m0.push(body));
        assert(es.map_values(|x: (Seq<char>, u128)| spec_line_body(x)) =~= m0.push(body));
    }
}

proof fn lemma_line_body_parse(m: Map<Seq<char>, u128>, e: (Seq<char>, u128))
    requires
        wf_cache_path(e.0),
    ensures
        spec_parse_line(m, spec_line_body(e)) == Some(m.insert(e.0, e.1)),
{
    let key = e.0;
    let digits = crate::num::dec_repr(e.1 as nat);
    let l = spec_line_body(e);
    crate::num::lemma_dec_roundtrip(e.1 as nat);
    // the line needs no trimming: it starts with the path or the separator,
    // and ends with a digit
    assert(l[0] != ' ' && l[0] != '\t' && l[0] != '\r') by {
        if key.len() > 0 {
            assert(l[0] == key[0]);
        } else {
            assert(l[0] == ':');
        }
    }
    assert(!is_trim_char(l.last())) by {
        assert(l.last() == digits.last());
        assert(crate::num::is_dec_digit(digits.last()));
    }
    assert(spec_trim(l) == l);
    // the first separator stands right after the path
    let p = key.len() as int;
    assert(l[p] == ':' && l[p + 1] == ' ');
    assert(sep_at(l, p));
    assert forall|k: int| 0 <= k < p implies !sep_at(l, k) by {
        if k < p - 1 {
            assert(l[k] == key[k] && l[k + 1] == key[k + 1]);
            assert(!sep_at(key, k));
        } else {
            assert(l[k + 1] == ':');
        }
    }
    lemma_sep_unique(l, p);
    assert(l.take(p) =~= key);
    assert(l.skip(p + 2) =~= digits);
}

proof fn lemma_parse_bodies(es: Seq<(Seq<char>, u128)>)
    requires
        forall|i: int| 0 <= i < es.len() ==> wf_cache_path((#[trigger] es[i]).0),
    ensures
        spec_parse_lines(es.map_values(|e: (Seq<char>, u128)| spec_line_body(e))) == Some(
            cache_map_of(es),
        ),
    decreases es.len(),
{
    let bodies = es.map_values(|e: (Seq<char>, u128)| spec_line_body(e));
    if es.len() == 0 {
    } else {
        let es0 = es.drop_last();
        lemma_parse_bodies(es0);
        assert(bodies.drop_last() =~= es0.map_values(|e: (Seq<char>, u128)| spec_line_body(e)));
        assert(bodies.last() == spec_line_body(es.last()));
        lemma_line_body_parse(cache_map_of(es0), es.last());
    }
}

proof fn lemma_mtimes_entry_views(s: Seq<(String, u128)>)
    ensures
        cache_map_of(s.map_values(|e: (String, u128)| (e.0@, e.1))) == mtimes_of(s),
    decreases s.len(),
{
    if s.len() > 0 {
        lemma_mtimes_entry_views(s.drop_last());
        assert(s.map_values(|e: (String, u128)| (e.0@, e.1)).drop_last() =~= s.drop_last()
            .map_values(|e: (String, u128)| (e.0@, e.1)));
    }
}

impl CacheMap {
    /// Every recorded path survives a round trip through the persisted
    /// form.
    pub open spec fn persistable(&self) -> bool {
        forall|i: int|
            0 <= i < self.entry_views().len() ==> wf_cache_path(
                (#[trigger] self.entry_views()[i]).0,
            )
    }
}

/// Writing the cache out and reading it back yields the same mapping: the
/// persisted form loses nothing between runs.
pub proof fn lemma_cache_roundtrip(c: &CacheMap)
    requires
        c.persistable(),
    ensures
        spec_parse_cache(spec_cache_text(c.entry_views())) == Some(c@),
{
    let es = c.entry_views();
    lemma_cache_text_split(es);
    lemma_parse_bodies(es);
    let bodies = es.map_values(|e: (Seq<char>, u128)| spec_line_body(e));
    let lines = bodies.push(Seq::<char>::empty());
    assert(lines.drop_last() =~= bodies);
    assert(spec_trim(Seq::<char>::empty()) == Seq::<char>::empty());
    assert(spec_parse_line(cache_map_of(es), Seq::<char>::empty()) == Some(cache_map_of(es)));
    lemma_views_roundtrip(c);
}

proof fn lemma_views_roundtrip(c: &CacheMap)
    ensures
        cache_map_of(c.entry_views()) == c@,
{
    lemma_mtimes_entry_views(c.entries@);
}

/// When every input file's current modification time equals its cached one,
/// the resource is judged unchanged; when exactly one file's time was
/// touched, it is judged changed.
pub proof fn lemma_cache_correctness(
    m: Map<Seq<char>, u128>,
    files: Seq<InputFile>,
    touched: Seq<InputFile>,
    k: int,
)
    requires
        forall|i: int|
            0 <= i < files.len() && !(#[trigger] files[i]).is_dir ==> m.contains_key(
                files[i].path@,
            ) && m[files[i].path@] == files[i].mtime,
        0 <= k < files.len(),
        touched.len() == files.len(),
        forall|i: int| 0 <= i < files.len() && i != k ==> #[trigger] touched[i] == files[i],
        touched[k].path@ == files[k].path@,
        touched[k].is_dir == files[k].is_dir,
        !files[k].is_dir,
        touched[k].mtime != files[k].mtime,
    ensures
        !spec_changed(m, files),
        spec_changed(m, touched),
{
    assert(!touched[k].is_dir && m.contains_key(touched[k].path@) && m[touched[k].path@]
        != touched[k].mtime);
}

} // verus!
