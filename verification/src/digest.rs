use vstd::multiset::Multiset;
use vstd::prelude::*;

use crate::text::{lex_le, lex_le_antisymmetric, lex_le_total, lex_le_transitive, str_le};

verus! {

/// One input file of a resource, as discovery found it: its path relative to
/// the source root, whether it exists and whether it is a directory, its
/// modification time in milliseconds, and its bytes.
pub struct InputFile {
    pub path: String,
    pub exists: bool,
    pub is_dir: bool,
    pub mtime: u128,
    pub data: Vec<u8>,
}

/// Name for the CRC-32 (ISO-HDLC) digest of a byte stream.
pub uninterp spec fn crc32_of(data: Seq<u8>) -> u32;

/// Relies on crc::Crc::<u32>::checksum with the CRC_32_ISO_HDLC algorithm
/// from crc-catalog: a pure digest of the byte stream.
#[verifier::external_body]
fn crc32(data: &[u8]) -> (r: u32)
    ensures
        r == crc32_of(data@),
{
    crc::Crc::<u32>::new(&crc::CRC_32_ISO_HDLC).checksum(data)
}

/// The stable numeric identity of a resource: the CRC-32 of the UTF-8 form
/// of its source path, widened to a signed 64-bit integer.
pub open spec fn spec_id_of(path: Seq<char>) -> i64 {
    crc32_of(vstd::utf8::encode_utf8(path)) as i64
}

/// Derives the stable identity of a resource from its source path.
pub fn compute_id(path: &str) -> (r: i64)
    ensures
        r == spec_id_of(path@),
        0 <= r < 0x1_0000_0000,
{
    let c = crc32(path.as_bytes());
    c as i64
}

/// A file whose bytes take part in version hashing: one that is not a
/// directory (preprocessing already left non-existent paths out).
pub open spec fn hashed(f: InputFile) -> bool {
    !f.is_dir
}

/// The byte stream a resource's version digests: the bytes of its input
/// files that are not directories, in list order.
pub open spec fn version_stream(files: Seq<InputFile>) -> Seq<u8>
    decreases files.len(),
{
    if files.len() == 0 {
        Seq::empty()
    } else if hashed(files.last()) {
        version_stream(files.drop_last()) + files.last().data@
    } else {
        version_stream(files.drop_last())
    }
}

/// The content version of a resource over already-preprocessed input files:
/// the CRC-32 of their concatenated bytes, widened to a signed 64-bit
/// integer.
pub open spec fn spec_version_of(files: Seq<InputFile>) -> i64 {
    crc32_of(version_stream(files)) as i64
}

fn append_bytes(out: &mut Vec<u8>, data: &Vec<u8>)
    ensures
        final(out)@ == old(out)@ + data@,
{
    let n = data.len();
    let mut i: usize = 0;
    while i < n
        invariant
            n == data@.len(),
            i <= n,
            out@ =~= old(out)@ + data@.take(i as int),
        decreases n - i,
    {
        out.push(data[i]);
        proof {
            assert(old(out)@ + data@.take(i + 1) =~= (old(out)@ + data@.take(i as int)).push(
                data@[i as int],
            ));
        }
        i = i + 1;
    }
    proof {
        assert(old(out)@ + data@.take(n as int) =~= old(out)@ + data@);
    }
}

/// Computes the content version of a resource from its input files, which
/// the caller has already filtered and sorted; directories are skipped.
pub fn compute_version(files: &Vec<InputFile>) -> (r: i64)
    ensures
        r == spec_version_of(files@),
        0 <= r < 0x1_0000_0000,
{
    let n = files.len();
    let mut buf: Vec<u8> = Vec::new();
    let mut i: usize = 0;
    while i < n
        invariant
            n == files@.len(),
            i <= n,
            buf@ =~= version_stream(files@.take(i as int)),
        decreases n - i,
    {
        proof {
            assert(files@.take(i + 1).drop_last() =~= files@.take(i as int));
            assert(files@.take(i + 1).last() == files@[i as int]);
        }
        if !files[i].is_dir {
            append_bytes(&mut buf, &files[i].data);
        }
        i = i + 1;
    }
    proof {
        assert(files@.take(n as int) =~= files@);
    }
    let c = crc32(buf.as_slice());
    c as i64
}

/// The input files are ordered by path.
pub open spec fn sorted_by_path(files: Seq<InputFile>) -> bool {
    forall|i: int, j: int|
        0 <= i < j < files.len() ==> lex_le(
            #[trigger] files[i].path@,
            #[trigger] files[j].path@,
        )
}

/// No two input files share a path.
pub open spec fn distinct_paths(files: Seq<InputFile>) -> bool {
    forall|i: int, j: int|
        0 <= i < j < files.len() ==> #[trigger] files[i].path@ != #[trigger] files[j].path@
}

fn min_path_index(files: &Vec<InputFile>) -> (m: usize)
    requires
        files@.len() > 0,
    ensures
        m < files@.len(),
        forall|k: int| 0 <= k < files@.len() ==> lex_le(files@[m as int].path@, #[trigger] files@[k].path@),
{
    let n = files.len();
    let mut m: usize = 0;
    let mut j: usize = 1;
    proof {
        lex_le_total(files@[0].path@, files@[0].path@);
    }
    while j < n
        invariant
            n == files@.len(),
            m < j <= n,
            forall|k: int| 0 <= k < j ==> lex_le(files@[m as int].path@, #[trigger] files@[k].path@),
        decreases n - j,
    {
        if str_le(&files[j].path.as_str(), &files[m].path.as_str()) {
            proof {
                assert forall|k: int| 0 <= k < j + 1 implies lex_le(
                    files@[j as int].path@,
                    #[trigger] files@[k].path@,
                ) by {
                    if k < j {
                        lex_le_transitive(
                            files@[j as int].path@,
                            files@[m as int].path@,
                            files@[k].path@,
                        );
                    } else {
                        lex_le_total(files@[j as int].path@, files@[j as int].path@);
                    }
                }
            }
            m = j;
        } else {
            proof {
                lex_le_total(files@[m as int].path@, files@[j as int].path@);
            }
        }
        j = j + 1;
    }
    m
}

fn sort_by_path_vec(files: Vec<InputFile>) -> (r: Vec<InputFile>)
    ensures
        sorted_by_path(r@),
        r@.to_multiset() == files@.to_multiset(),
{
    broadcast use vstd::seq_lib::group_to_multiset_ensures;

    let ghost orig = files@;
    let mut rest = files;
    let mut out: Vec<InputFile> = Vec::new();
    while rest.len() > 0
        invariant
            sorted_by_path(out@),
            forall|i: int, j: int|
                0 <= i < out@.len() && 0 <= j < rest@.len() ==> lex_le(
                    #[trigger] out@[i].path@,
                    #[trigger] rest@[j].path@,
                ),
            out@.to_multiset().add(rest@.to_multiset()) =~= orig.to_multiset(),
        decreases rest@.len(),
    {
        let m = min_path_index(&rest);
        let ghost old_rest = rest@;
        let ghost old_out = out@;
        let f = rest.remove(m);
        out.push(f);
        proof {
            old_out.to_multiset_ensures();
            old_rest.to_multiset_ensures();
            assert(out@ =~= old_out.push(f));
            assert(old_out.push(f).to_multiset() =~= old_out.to_multiset().insert(f));
            assert(rest@ == old_rest.remove(m as int));
            assert(old_rest.remove(m as int).to_multiset() =~= old_rest.to_multiset().remove(
                old_rest[m as int],
            ));
            assert(f == old_rest[m as int]);
            assert(old_rest.to_multiset().contains(f));
            assert(out@.to_multiset().add(rest@.to_multiset()) =~= orig.to_multiset());
            assert forall|i: int, j: int|
                0 <= i < out@.len() && 0 <= j < rest@.len() implies lex_le(
                #[trigger] out@[i].path@,
                #[trigger] rest@[j].path@,
            ) by {
                let jj = if j < m { j } else { j + 1 };
                assert(rest@[j] == old_rest[jj]);
                if i < old_out.len() {
                    assert(lex_le(old_out[i].path@, old_rest[jj].path@));
                } else {
                    assert(out@[i] == f);
                    assert(lex_le(f.path@, old_rest[jj].path@));
                }
            }
            assert forall|i: int, j: int| 0 <= i < j < out@.len() implies lex_le(
                #[trigger] out@[i].path@,
                #[trigger] out@[j].path@,
            ) by {
                if j < out@.len() - 1 {
                    assert(lex_le(old_out[i].path@, old_out[j].path@));
                } else {
                    assert(out@[j] == f);
                    assert(lex_le(old_out[i].path@, old_rest[m as int].path@));
                }
            }
        }
    }
    proof {
        assert(rest@.to_multiset() =~= Multiset::<InputFile>::empty());
        assert(out@.to_multiset().add(rest@.to_multiset()) =~= out@.to_multiset());
    }
    out
}

proof fn lemma_lex_le_refl(a: Seq<char>)
    ensures
        lex_le(a, a),
{
    lex_le_total(a, a);
}

/// Two path-sorted lists of files with no repeated path and the same
/// contents are the same list.
pub proof fn lemma_sorted_unique_by_path(x: Seq<InputFile>, y: Seq<InputFile>)
    requires
        sorted_by_path(x),
        sorted_by_path(y),
        distinct_paths(x),
        x.to_multiset() == y.to_multiset(),
    ensures
        x =~= y,
    decreases x.len(),
{
    x.to_multiset_ensures();
    y.to_multiset_ensures();
    if x.len() == 0 {
        assert(y.to_multiset().len() == 0);
    } else if y.len() == 0 {
        assert(x.to_multiset().len() == 0);
    } else {
        assert(x.contains(x[0]));
        assert(y.to_multiset().count(x[0]) > 0);
        assert(y.contains(x[0]));
        let j = choose|j: int| 0 <= j < y.len() && y[j] == x[0];
        assert(y.contains(y[0]));
        assert(x.to_multiset().count(y[0]) > 0);
        assert(x.contains(y[0]));
        let i = choose|i: int| 0 <= i < x.len() && x[i] == y[0];
        if j > 0 {
            assert(lex_le(y[0].path@, y[j].path@));
        } else {
            lemma_lex_le_refl(y[0].path@);
        }
        if i > 0 {
            assert(lex_le(x[0].path@, x[i].path@));
        } else {
            lemma_lex_le_refl(x[0].path@);
        }
        lex_le_antisymmetric(x[0].path@, y[0].path@);
        assert(x[0].path@ == y[0].path@);
        // the entry with that path is unique in x, so the heads are equal
        if i > 0 {
            assert(x[0].path@ != x[i].path@);
            assert(false);
        }
        assert(x[0] == y[0]);
        let xt = x.drop_first();
        let yt = y.drop_first();
        assert(x.remove(0) =~= xt);
        assert(y.remove(0) =~= yt);
        assert(xt.to_multiset() =~= x.to_multiset().remove(x[0]));
        assert(yt.to_multiset() =~= y.to_multiset().remove(y[0]));
        assert(sorted_by_path(xt)) by {
            assert forall|a: int, b: int| 0 <= a < b < xt.len() implies lex_le(
                #[trigger] xt[a].path@,
                #[trigger] xt[b].path@,
            ) by {
                assert(xt[a] == x[a + 1] && xt[b] == x[b + 1]);
            }
        }
        assert(sorted_by_path(yt)) by {
            assert forall|a: int, b: int| 0 <= a < b < yt.len() implies lex_le(
                #[trigger] yt[a].path@,
                #[trigger] yt[b].path@,
            ) by {
                assert(yt[a] == y[a + 1] && yt[b] == y[b + 1]);
            }
        }
        assert(distinct_paths(xt)) by {
            assert forall|a: int, b: int| 0 <= a < b < xt.len() implies #[trigger] xt[a].path@
                != #[trigger] xt[b].path@ by {
                assert(xt[a] == x[a + 1] && xt[b] == x[b + 1]);
            }
        }
        lemma_sorted_unique_by_path(xt, yt);
        assert forall|k: int| 0 <= k < x.len() implies x[k] == y[k] by {
            if k > 0 {
                assert(xt[k - 1] == yt[k - 1]);
            }
        }
    }
}

/// Lists with the same contents keep the same contents after the same
/// filtering.
pub proof fn lemma_filter_preserves_multiset(
    a: Seq<InputFile>,
    b: Seq<InputFile>,
    p: spec_fn(InputFile) -> bool,
)
    requires
        a.to_multiset() == b.to_multiset(),
    ensures
        a.filter(p).to_multiset() == b.filter(p).to_multiset(),
{
    lemma_filter_multiset_bridge(a, p);
    lemma_filter_multiset_bridge(b, p);
}

proof fn lemma_filter_multiset_bridge(s: Seq<InputFile>, p: spec_fn(InputFile) -> bool)
    ensures
        s.filter(p).to_multiset() =~= s.to_multiset().filter(p),
    decreases s.len(),
{
    broadcast use vstd::multiset::group_multiset_axioms;

    reveal(Seq::filter);
    if s.len() == 0 {
        s.to_multiset_ensures();
        s.filter(p).to_multiset_ensures();
        assert forall|v: InputFile| #[trigger]
            s.to_multiset().filter(p).count(v) == 0 by {
            assert(!s.contains(v));
            assert(s.to_multiset().count(v) == 0);
        }
        assert forall|v: InputFile| #[trigger]
            s.filter(p).to_multiset().count(v) == 0 by {
            assert(s.filter(p).len() == 0);
            assert(!s.filter(p).contains(v));
        }
    } else {
        let t = s.drop_last();
        let l = s.last();
        lemma_filter_multiset_bridge(t, p);
        t.to_multiset_ensures();
        t.filter(p).to_multiset_ensures();
        assert(s =~= t.push(l));
        assert(s.to_multiset() =~= t.to_multiset().insert(l));
        if p(l) {
            assert(s.filter(p) == t.filter(p).push(l));
            assert(s.filter(p).to_multiset() =~= t.filter(p).to_multiset().insert(l));
        }
        assert forall|v: InputFile| #[trigger] s.filter(p).to_multiset().count(v) == s.to_multiset().filter(
            p,
        ).count(v) by {
            assert(s.to_multiset().count(v) == t.to_multiset().count(v) + if v == l {
                1int
            } else {
                0int
            });
            assert(t.filter(p).to_multiset().count(v) == t.to_multiset().filter(p).count(v));
        }
    }
}

proof fn lemma_filter_keeps_distinct(s: Seq<InputFile>, p: spec_fn(InputFile) -> bool)
    requires
        distinct_paths(s),
    ensures
        distinct_paths(s.filter(p)),
    decreases s.len(),
{
    reveal(Seq::filter);
    if s.len() > 0 {
        let t = s.drop_last();
        assert(distinct_paths(t)) by {
            assert(forall|i: int, j: int|
                0 <= i < j < t.len() ==> t[i] == s[i] && t[j] == s[j]);
        }
        lemma_filter_keeps_distinct(t, p);
        if p(s.last()) {
            let f0 = t.filter(p);
            assert forall|i: int, j: int| 0 <= i < j < s.filter(p).len() implies #[trigger] s.filter(
                p,
            )[i].path@ != #[trigger] s.filter(p)[j].path@ by {
                if j < f0.len() {
                    assert(s.filter(p)[i] == f0[i] && s.filter(p)[j] == f0[j]);
                } else {
                    assert(s.filter(p)[j] == s.last());
                    assert(f0.contains(f0[i]));
                    t.lemma_filter_contains_rev(p, f0[i]);
                    let k = choose|k: int| 0 <= k < t.len() && t[k] == f0[i];
                    assert(s[k] == f0[i]);
                    assert(s[k].path@ != s[s.len() - 1].path@);
                }
            }
        }
    }
}

proof fn lemma_count_two(b: Seq<InputFile>, i: int, j: int)
    requires
        0 <= i < j < b.len(),
        b[i] == b[j],
    ensures
        b.to_multiset().count(b[i]) >= 2,
{
    broadcast use vstd::seq_lib::group_to_multiset_ensures;
    broadcast use vstd::multiset::group_multiset_axioms;

    let s0 = b.subrange(0, j);
    let s1 = b.subrange(j, b.len() as int);
    assert(b =~= s0 + s1);
    vstd::seq_lib::lemma_multiset_commutative(s0, s1);
    s0.to_multiset_ensures();
    s1.to_multiset_ensures();
    assert(s0.contains(b[i]));
    assert(s1[0] == b[j]);
    assert(s1.contains(b[i]));
    assert(s0.to_multiset().count(b[i]) >= 1);
    assert(s1.to_multiset().count(b[i]) >= 1);
}

proof fn lemma_distinct_of_multiset(a: Seq<InputFile>, b: Seq<InputFile>)
    requires
        distinct_paths(a),
        b.to_multiset() == a.to_multiset(),
    ensures
        distinct_paths(b),
{
    broadcast use vstd::seq_lib::group_to_multiset_ensures;

    assert forall|i: int, j: int| 0 <= i < j < b.len() implies #[trigger] b[i].path@
        != #[trigger] b[j].path@ by {
        if b[i].path@ == b[j].path@ {
            if b[i] == b[j] {
                lemma_count_two(b, i, j);
                assert(a.to_multiset().count(b[i]) >= 2);
                assert(a.no_duplicates()) by {
                    assert(forall|x: int, y: int|
                        0 <= x < y < a.len() ==> a[x].path@ != a[y].path@);
                }
                a.lemma_multiset_has_no_duplicates();
                assert(a.to_multiset().contains(b[i]));
            } else {
                assert(b.contains(b[i]) && b.contains(b[j]));
                assert(b.to_multiset().count(b[i]) > 0);
                assert(b.to_multiset().count(b[j]) > 0);
                assert(a.contains(b[i]) && a.contains(b[j]));
                let k = choose|k: int| 0 <= k < a.len() && a[k] == b[i];
                let l = choose|l: int| 0 <= l < a.len() && a[l] == b[j];
                assert(k != l);
                assert(a[k].path@ != a[l].path@);
            }
        }
    }
}

/// Preprocessing runs over the same discovered file set, in whatever
/// discovery order, leave the same sorted list, so the version digest reads
/// the same byte stream.
pub proof fn lemma_preprocess_deterministic(
    d1: Seq<InputFile>,
    d2: Seq<InputFile>,
    s1: Seq<InputFile>,
    s2: Seq<InputFile>,
)
    requires
        distinct_paths(d1),
        d1.to_multiset() == d2.to_multiset(),
        sorted_by_path(s1),
        s1.to_multiset() == d1.filter(|f: InputFile| f.exists).to_multiset(),
        sorted_by_path(s2),
        s2.to_multiset() == d2.filter(|f: InputFile| f.exists).to_multiset(),
    ensures
        s1 =~= s2,
        spec_version_of(s1) == spec_version_of(s2),
{
    lemma_filter_preserves_multiset(d1, d2, |f: InputFile| f.exists);
    lemma_filter_keeps_distinct(d1, |f: InputFile| f.exists);
    lemma_distinct_of_multiset(d1.filter(|f: InputFile| f.exists), s1);
    lemma_version_order_independent(s1, s2);
}

/// The content version is independent of discovery order: path-sorted input
/// lists that hold the same file set feed the digest the same byte stream.
pub proof fn lemma_version_order_independent(s1: Seq<InputFile>, s2: Seq<InputFile>)
    requires
        sorted_by_path(s1),
        sorted_by_path(s2),
        distinct_paths(s1),
        s1.to_multiset() == s2.to_multiset(),
    ensures
        s1 =~= s2,
        spec_version_of(s1) == spec_version_of(s2),
{
    lemma_sorted_unique_by_path(s1, s2);
}

/// Keeps the input files that exist and sorts them by path, the order the
/// version digest reads them in.
pub fn preprocess_input_files(files: Vec<InputFile>) -> (r: Vec<InputFile>)
    ensures
        sorted_by_path(r@),
        r@.to_multiset() == files@.filter(|f: InputFile| f.exists).to_multiset(),
{
    let n = files.len();
    let ghost orig = files@;
    let mut rest = files;
    let mut keep: Vec<InputFile> = Vec::new();
    proof {
        reveal(Seq::filter);
        assert(orig.take(0int).filter(|f: InputFile| f.exists) =~= Seq::<InputFile>::empty());
    }
    proof {
        assert(orig.skip(0) =~= orig);
    }
    let mut i: usize = 0;
    while i < n
        invariant
            n == orig.len(),
            i <= n,
            rest@ =~= orig.skip(i as int),
            keep@ =~= orig.take(i as int).filter(|f: InputFile| f.exists),
        decreases n - i,
    {
        proof {
            reveal(Seq::filter);
            assert(orig.take(i + 1).drop_last() =~= orig.take(i as int));
            assert(orig.take(i + 1).last() == orig[i as int]);
            assert(orig.skip(i as int)[0] == orig[i as int]);
            assert(orig.skip(i as int).remove(0) =~= orig.skip(i + 1));
        }
        let f = rest.remove(0);
        if f.exists {
            keep.push(f);
        }
        i = i + 1;
    }
    proof {
        assert(orig.take(n as int) =~= orig);
    }
    sort_by_path_vec(keep)
}

} // verus!
