use vstd::prelude::*;

verus! {

// Trusted wrappers over the two std string operations that the library needs
// and that vstd leaves unspecified.

/// Relies on String::push: appends exactly one character to the string.
#[verifier::external_body]
pub fn push_char(s: &mut String, c: char)
    ensures
        final(s)@ == old(s)@.push(c),
{
    s.push(c)
}

/// Name for the result of str::to_lowercase, which depends on the characters alone.
pub uninterp spec fn lower_of(s: Seq<char>) -> Seq<char>;

/// Relies on str::to_lowercase: unicode-aware case folding of the whole string.
#[verifier::external_body]
pub fn to_lowercase(s: &str) -> (r: String)
    ensures
        r@ == lower_of(s@),
{
    s.to_lowercase()
}

/// Non-strict lexicographic order on character sequences, by unicode scalar value.
pub open spec fn lex_le(a: Seq<char>, b: Seq<char>) -> bool
    decreases a.len(),
{
    if a.len() == 0 {
        true
    } else if b.len() == 0 {
        false
    } else if (a[0] as u32) == (b[0] as u32) {
        lex_le(a.drop_first(), b.drop_first())
    } else {
        (a[0] as u32) < (b[0] as u32)
    }
}

pub proof fn lex_le_total(a: Seq<char>, b: Seq<char>)
    ensures
        lex_le(a, b) || lex_le(b, a),
    decreases a.len(),
{
    if a.len() != 0 && b.len() != 0 && a[0] as u32 == b[0] as u32 {
        lex_le_total(a.drop_first(), b.drop_first());
    }
}

pub proof fn lex_le_antisymmetric(a: Seq<char>, b: Seq<char>)
    requires
        lex_le(a, b),
        lex_le(b, a),
    ensures
        a == b,
    decreases a.len(),
{
    if a.len() == 0 {
        assert(b.len() == 0);
        assert(a =~= b);
    } else {
        assert(b.len() != 0);
        assert(a[0] as u32 == b[0] as u32);
        vstd::utf8::char_u32_cast(a[0], a[0] as u32);
        vstd::utf8::char_u32_cast(b[0], b[0] as u32);
        assert(a[0] == b[0]);
        lex_le_antisymmetric(a.drop_first(), b.drop_first());
        assert(a =~= seq![a[0]] + a.drop_first());
        assert(b =~= seq![b[0]] + b.drop_first());
    }
}

pub proof fn lex_le_transitive(a: Seq<char>, b: Seq<char>, c: Seq<char>)
    requires
        lex_le(a, b),
        lex_le(b, c),
    ensures
        lex_le(a, c),
    decreases a.len(),
{
    if a.len() != 0 && b.len() != 0 && c.len() != 0 {
        if a[0] as u32 == b[0] as u32 && b[0] as u32 == c[0] as u32 {
            lex_le_transitive(a.drop_first(), b.drop_first(), c.drop_first());
        }
    }
}

/// Compares two strings in the lexicographic order used for sorting input files.
pub fn str_le(a: &str, b: &str) -> (r: bool)
    ensures
        r == lex_le(a@, b@),
{
    let a_len = a.unicode_len();
    let b_len = b.unicode_len();
    let mut i: usize = 0;
    proof {
        assert(a@.skip(0) =~= a@);
        assert(b@.skip(0) =~= b@);
    }
    loop
        invariant
            i <= a_len,
            i <= b_len,
            a_len == a@.len(),
            b_len == b@.len(),
            forall|k: int| 0 <= k < i ==> (a@[k] as u32) == (b@[k] as u32),
            lex_le(a@, b@) == lex_le(a@.skip(i as int), b@.skip(i as int)),
        decreases a_len - i,
    {
        if i == a_len {
            return true;
        }
        if i == b_len {
            return false;
        }
        let ca = a.get_char(i);
        let cb = b.get_char(i);
        if (ca as u32) != (cb as u32) {
            return (ca as u32) < (cb as u32);
        }
        proof {
            assert(a@.skip(i as int).drop_first() =~= a@.skip(i + 1));
            assert(b@.skip(i as int).drop_first() =~= b@.skip(i + 1));
        }
        i = i + 1;
    }
}

/// Character-for-character string equality.
pub fn str_eq(a: &str, b: &str) -> (r: bool)
    ensures
        r == (a@ == b@),
{
    let a_len = a.unicode_len();
    let b_len = b.unicode_len();
    if a_len != b_len {
        return false;
    }
    let mut i: usize = 0;
    while i < a_len
        invariant
            i <= a_len,
            a_len == a@.len(),
            a_len == b@.len(),
            forall|k: int| 0 <= k < i ==> a@[k] == b@[k],
        decreases a_len - i,
    {
        if a.get_char(i) != b.get_char(i) {
            return false;
        }
        i = i + 1;
    }
    proof {
        assert(a@ =~= b@);
    }
    true
}

/// Index of the first occurrence of a character, if any.
pub fn find_char(s: &str, c: char) -> (r: Option<usize>)
    ensures
        match r {
            Some(i) => i < s@.len() && s@[i as int] == c && forall|k: int|
                0 <= k < i ==> s@[k] != c,
            None => forall|k: int| 0 <= k < s@.len() ==> s@[k] != c,
        },
{
    let len = s.unicode_len();
    let mut i: usize = 0;
    while i < len
        invariant
            i <= len,
            len == s@.len(),
            forall|k: int| 0 <= k < i ==> s@[k] != c,
        decreases len - i,
    {
        if s.get_char(i) == c {
            return Some(i);
        }
        i = i + 1;
    }
    None
}

/// Index of the last occurrence of a character, if any.
pub fn rfind_char(s: &str, c: char) -> (r: Option<usize>)
    ensures
        match r {
            Some(i) => i < s@.len() && s@[i as int] == c && forall|k: int|
                i < k < s@.len() ==> s@[k] != c,
            None => forall|k: int| 0 <= k < s@.len() ==> s@[k] != c,
        },
{
    let len = s.unicode_len();
    let mut i: usize = len;
    while i > 0
        invariant
            i <= len,
            len == s@.len(),
            forall|k: int| i <= k < s@.len() ==> s@[k] != c,
        decreases i,
    {
        i = i - 1;
        if s.get_char(i) == c {
            return Some(i);
        }
    }
    None
}

/// True when the string begins with the given character.
pub fn starts_with_char(s: &str, c: char) -> (r: bool)
    ensures
        r == (s@.len() > 0 && s@[0] == c),
{
    if s.unicode_len() == 0 {
        false
    } else {
        s.get_char(0) == c
    }
}

/// The pieces of a character sequence cut at every occurrence of a separator;
/// an empty sequence yields one empty piece, as str::split does.
pub open spec fn spec_split(s: Seq<char>, c: char) -> Seq<Seq<char>>
    decreases s.len(),
{
    if s.len() == 0 {
        seq![Seq::<char>::empty()]
    } else if s.last() == c {
        spec_split(s.drop_last(), c).push(Seq::<char>::empty())
    } else {
        let parts = spec_split(s.drop_last(), c);
        parts.update(parts.len() - 1, parts.last().push(s.last()))
    }
}

pub proof fn spec_split_len(s: Seq<char>, c: char)
    ensures
        spec_split(s, c).len() >= 1,
    decreases s.len(),
{
    if s.len() != 0 {
        spec_split_len(s.drop_last(), c);
    }
}

/// Cuts a string at every occurrence of a separator character.
pub fn split_char(s: &str, c: char) -> (r: Vec<String>)
    ensures
        r@.map_values(|p: String| p@) == spec_split(s@, c),
{
    let len = s.unicode_len();
    let mut done: Vec<String> = Vec::new();
    let mut current: String = String::new();
    let mut i: usize = 0;
    while i < len
        invariant
            i <= len,
            len == s@.len(),
            done@.map_values(|p: String| p@).push(current@) =~= spec_split(
                s@.take(i as int),
                c,
            ),
        decreases len - i,
    {
        let ch = s.get_char(i);
        proof {
            assert(s@.take(i + 1).drop_last() =~= s@.take(i as int));
            assert(s@.take(i + 1).last() == s@[i as int]);
        }
        if ch == c {
            done.push(current);
            current = String::new();
            proof {
                assert(done@.map_values(|p: String| p@).push(current@) =~= spec_split(
                    s@.take(i + 1),
                    c,
                ));
            }
        } else {
            push_char(&mut current, ch);
            proof {
                let parts = spec_split(s@.take(i as int), c);
                spec_split_len(s@.take(i as int), c);
                assert(done@.map_values(|p: String| p@).push(current@) =~= parts.update(
                    parts.len() - 1,
                    parts.last().push(ch),
                ));
            }
        }
        i = i + 1;
    }
    proof {
        assert(s@.take(len as int) =~= s@);
    }
    done.push(current);
    proof {
        assert(done@.map_values(|p: String| p@) =~= spec_split(s@, c).drop_last().push(
            spec_split(s@, c).last(),
        ));
        spec_split_len(s@, c);
        assert(spec_split(s@, c).drop_last().push(spec_split(s@, c).last()) =~= spec_split(
            s@,
            c,
        ));
    }
    done
}

/// The character occurs in the sequence.
pub open spec fn has_char(s: Seq<char>, c: char) -> bool {
    exists|k: int| 0 <= k < s.len() && s[k] == c
}

pub open spec fn stem_rec(s: Seq<char>, c: char) -> Seq<char>
    decreases s.len(),
{
    if s.len() == 0 {
        s
    } else if s.last() == c {
        s.drop_last()
    } else {
        stem_rec(s.drop_last(), c)
    }
}

/// Everything before the last occurrence of a character, or the whole
/// sequence when the character does not occur: the first half of
/// str::rsplit_once, with the whole string as fallback.
pub open spec fn spec_before_last(s: Seq<char>, c: char) -> Seq<char> {
    if has_char(s, c) {
        stem_rec(s, c)
    } else {
        s
    }
}

proof fn lemma_stem_rec_take(s: Seq<char>, c: char, i: int)
    requires
        0 <= i < s.len(),
        s[i] == c,
        forall|k: int| i < k < s.len() ==> s[k] != c,
    ensures
        stem_rec(s, c) =~= s.take(i),
    decreases s.len(),
{
    if i == s.len() - 1 {
        assert(s.drop_last() =~= s.take(i));
    } else {
        lemma_stem_rec_take(s.drop_last(), c, i);
        assert(s.drop_last().take(i) =~= s.take(i));
    }
}

/// Everything before the last occurrence of the character, or the whole
/// string when it does not occur.
pub fn before_last(s: &str, c: char) -> (r: String)
    ensures
        r@ == spec_before_last(s@, c),
{
    match rfind_char(s, c) {
        Some(i) => {
            proof {
                lemma_stem_rec_take(s@, c, i as int);
            }
            let r = s.substring_char(0, i).to_owned();
            proof {
                assert(s@.subrange(0, i as int) =~= s@.take(i as int));
            }
            r
        },
        None => s.to_owned(),
    }
}

/// Everything after the last occurrence of a character, or the whole
/// sequence when the character does not occur: the second half of
/// str::rsplit_once, with the whole string as fallback.
pub open spec fn spec_after_last(s: Seq<char>, c: char) -> Seq<char> {
    if has_char(s, c) {
        s.skip(
            (choose|i: int|
                0 <= i < s.len() && s[i] == c && forall|k: int| i < k < s.len() ==> s[k] != c) + 1,
        )
    } else {
        s
    }
}

/// The last occurrence of a character pins both halves of the split.
pub proof fn lemma_last_occurrence(s: Seq<char>, c: char, i: int)
    requires
        0 <= i < s.len(),
        s[i] == c,
        forall|k: int| i < k < s.len() ==> s[k] != c,
    ensures
        has_char(s, c),
        spec_before_last(s, c) =~= s.take(i),
        spec_after_last(s, c) =~= s.skip(i + 1),
{
    assert(has_char(s, c));
    lemma_stem_rec_take(s, c, i);
    let j = choose|j: int|
        0 <= j < s.len() && s[j] == c && forall|k: int| j < k < s.len() ==> s[k] != c;
    if j < i {
        assert(s[i] != c);
    }
    if i < j {
        assert(s[j] != c);
    }
}

/// Splits at the last occurrence of a separator character, as str::rsplit_once
/// does (the separator itself is dropped).
pub fn rsplit_once(s: &str, c: char) -> (r: Option<(String, String)>)
    ensures
        match r {
            Some((before, after)) => has_char(s@, c) && before@ == spec_before_last(s@, c)
                && after@ == spec_after_last(s@, c),
            None => !has_char(s@, c),
        },
{
    let len = s.unicode_len();
    match rfind_char(s, c) {
        Some(i) => {
            let before = s.substring_char(0, i).to_owned();
            let after = s.substring_char(i + 1, len).to_owned();
            proof {
                lemma_last_occurrence(s@, c, i as int);
                assert(s@.subrange(0, i as int) =~= s@.take(i as int));
                assert(s@.subrange(i + 1, len as int) =~= s@.skip(i + 1));
            }
            Some((before, after))
        },
        None => {
            proof {
                assert(!has_char(s@, c));
            }
            None
        },
    }
}

/// The pieces joined back with a separator between them.
pub open spec fn spec_join(parts: Seq<Seq<char>>, c: char) -> Seq<char>
    decreases parts.len(),
{
    if parts.len() == 0 {
        Seq::empty()
    } else if parts.len() == 1 {
        parts[0]
    } else {
        spec_join(parts.drop_last(), c).push(c) + parts.last()
    }
}

/// Joins strings with a separator character between them.
pub fn join_char(parts: &Vec<String>, c: char) -> (r: String)
    ensures
        r@ == spec_join(parts@.map_values(|p: String| p@), c),
{
    let mut out = String::new();
    let mut i: usize = 0;
    while i < parts.len()
        invariant
            i <= parts@.len(),
            out@ =~= spec_join(parts@.map_values(|p: String| p@).take(i as int), c),
        decreases parts@.len() - i,
    {
        if i > 0 {
            push_char(&mut out, c);
        }
        out.append(parts[i].as_str());
        proof {
            let views = parts@.map_values(|p: String| p@);
            assert(views.take(i + 1).drop_last() =~= views.take(i as int));
            assert(views.take(i + 1).last() == views[i as int]);
        }
        i = i + 1;
    }
    proof {
        assert(parts@.map_values(|p: String| p@).take(parts@.len() as int) =~= parts@.map_values(
            |p: String| p@,
        ));
    }
    out
}

} // verus!
