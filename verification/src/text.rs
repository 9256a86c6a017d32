//! Small executable string utilities with exact specifications: equality,
//! prefix test, and splitting / joining colon-separated dependency lists.

use vstd::prelude::*;

verus! {

/// Character-wise equality of two string slices.
pub fn str_eq(a: &str, b: &str) -> (r: bool)
    ensures
        r == (a@ == b@),
{
    let a_len: usize = a.unicode_len();
    let b_len: usize = b.unicode_len();
    if a_len != b_len {
        assert(a@ != b@) by {
            assert(a@.len() != b@.len());
        }
        return false;
    }
    let mut i: usize = 0;
    while i < a_len
        invariant
            i <= a_len,
            a_len == a@.len(),
            b_len == b@.len(),
            a_len == b_len,
            forall|k: int| 0 <= k < i ==> a@[k] == b@[k],
        decreases a_len - i,
    {
        if a.get_char(i) != b.get_char(i) {
            assert(a@ != b@);
            return false;
        }
        i = i + 1;
    }
    assert(a@ =~= b@);
    true
}

/// Does `p` occur at the start of `s`?
pub open spec fn spec_is_prefix(p: Seq<char>, s: Seq<char>) -> bool {
    p.len() <= s.len() && s.subrange(0, p.len() as int) == p
}

/// Character-wise prefix test.
pub fn str_is_prefix(p: &str, s: &str) -> (r: bool)
    ensures
        r == spec_is_prefix(p@, s@),
{
    let p_len: usize = p.unicode_len();
    let s_len: usize = s.unicode_len();
    if p_len > s_len {
        return false;
    }
    let mut i: usize = 0;
    while i < p_len
        invariant
            i <= p_len,
            p_len == p@.len(),
            s_len == s@.len(),
            p_len <= s_len,
            forall|k: int| 0 <= k < i ==> p@[k] == s@[k],
        decreases p_len - i,
    {
        if p.get_char(i) != s.get_char(i) {
            assert(!spec_is_prefix(p@, s@)) by {
                assert(s@.subrange(0, p@.len() as int)[i as int] == s@[i as int]);
            }
            return false;
        }
        i = i + 1;
    }
    assert(s@.subrange(0, p@.len() as int) =~= p@);
    true
}

/// The index of the first occurrence of `sep` in `s` at or after `from`, or
/// `s.len()` if there is none.
pub open spec fn spec_find_from(s: Seq<char>, sep: char, from: int) -> int
    decreases s.len() - from,
{
    if from < 0 || from >= s.len() {
        s.len() as int
    } else if s[from] == sep {
        from
    } else {
        spec_find_from(s, sep, from + 1)
    }
}

pub proof fn lemma_find_from_props(s: Seq<char>, sep: char, from: int)
    requires
        0 <= from <= s.len(),
    ensures
        from <= spec_find_from(s, sep, from) <= s.len(),
        spec_find_from(s, sep, from) < s.len() ==> s[spec_find_from(s, sep, from)] == sep,
        forall|j: int| from <= j < spec_find_from(s, sep, from) ==> s[j] != sep,
    decreases s.len() - from,
{
    if from < s.len() && s[from] != sep {
        lemma_find_from_props(s, sep, from + 1);
    }
}

/// The pieces of `s` between occurrences of `sep`, in order.  Splitting the
/// empty sequence gives one empty piece, as `str::split` does.
pub open spec fn spec_split(s: Seq<char>, sep: char) -> Seq<Seq<char>>
    decreases s.len(),
    via spec_split_decreases
{
    let f = spec_find_from(s, sep, 0);
    if f == s.len() {
        seq![s]
    } else {
        seq![s.subrange(0, f)] + spec_split(s.subrange(f + 1, s.len() as int), sep)
    }
}

#[via_fn]
proof fn spec_split_decreases(s: Seq<char>, sep: char) {
    lemma_find_from_props(s, sep, 0);
}

/// Splits `s` at every occurrence of `sep`.
pub fn split_str(s: &str, sep: char) -> (r: Vec<String>)
    ensures
        r.deep_view() == spec_split(s@, sep),
{
    let s_len: usize = s.unicode_len();
    let mut out: Vec<String> = Vec::new();
    let mut start: usize = 0;
    let mut i: usize = 0;
    proof {
        assert(s@.subrange(0, s_len as int) =~= s@);
        assert(out.deep_view() =~= Seq::<Seq<char>>::empty());
        assert(out.deep_view() + spec_split(s@, sep) =~= spec_split(s@, sep));
    }
    loop
        invariant
            start <= i <= s_len,
            s_len == s@.len(),
            forall|j: int| start <= j < i ==> s@[j] != sep,
            out.deep_view() + spec_split(s@.subrange(start as int, s_len as int), sep)
                == spec_split(s@, sep),
        decreases s_len - i,
    {
        let ghost tail = s@.subrange(start as int, s_len as int);
        let ghost old_dv = out.deep_view();
        if i == s_len {
            let piece = String::from_str(s.substring_char(start, i));
            out.push(piece);
            proof {
                assert(spec_find_from(tail, sep, 0) == tail.len()) by {
                    lemma_find_from_props(tail, sep, 0);
                    let f = spec_find_from(tail, sep, 0);
                    if f < tail.len() {
                        assert(tail[f] == s@[start + f]);
                    }
                }
                assert(spec_split(tail, sep) == seq![tail]);
                assert(out.deep_view() =~= old_dv + seq![tail]);
                assert(out.deep_view() =~~= spec_split(s@, sep));
            }
            return out;
        }
        if s.get_char(i) == sep {
            let piece = String::from_str(s.substring_char(start, i));
            out.push(piece);
            proof {
                let f = spec_find_from(tail, sep, 0);
                lemma_find_from_props(tail, sep, 0);
                assert forall|k: int| 0 <= k < i - start implies tail[k] != sep by {
                    assert(tail[k] == s@[start + k]);
                }
                assert(f == i - start) by {
                    assert(tail[i - start] == s@[i as int]);
                    if f < i - start {
                        assert(tail[f] != sep);
                    }
                }
                assert(tail.subrange(0, f) =~= s@.subrange(start as int, i as int));
                assert(tail.subrange(f + 1, tail.len() as int) =~= s@.subrange(
                    i + 1,
                    s_len as int,
                ));
                assert(out.deep_view() =~= old_dv + seq![piece@]);
                assert(out.deep_view() + spec_split(s@.subrange(i + 1, s_len as int), sep)
                    =~~= old_dv + spec_split(tail, sep));
            }
            start = i + 1;
        }
        i = i + 1;
    }
}

/// Copies a vector of strings; the copy reads back exactly the same.
pub fn clone_string_vec(v: &Vec<String>) -> (r: Vec<String>)
    ensures
        r@ == v@,
{
    let r = v.clone();
    proof {
        assert forall|i: int| 0 <= i < v@.len() implies r@[i] == v@[i] by {
            assert(cloned::<String>(v@[i], r@[i]));
        }
        assert(r@ =~= v@);
    }
    r
}

/// The pieces joined with `sep` between consecutive pieces.
pub open spec fn spec_join(pieces: Seq<Seq<char>>, sep: char) -> Seq<char>
    decreases pieces.len(),
{
    if pieces.len() == 0 {
        Seq::empty()
    } else if pieces.len() == 1 {
        pieces[0]
    } else {
        pieces[0] + seq![sep] + spec_join(pieces.drop_first(), sep)
    }
}

pub proof fn lemma_join_push(s: Seq<Seq<char>>, x: Seq<char>, sep: char)
    requires
        s.len() >= 1,
    ensures
        spec_join(s.push(x), sep) == spec_join(s, sep) + seq![sep] + x,
    decreases s.len(),
{
    if s.len() == 1 {
        assert(s.push(x).drop_first() =~= seq![x]);
        assert(spec_join(seq![x], sep) == x);
        assert(s.push(x)[0] == s[0]);
        assert(spec_join(s.push(x), sep) =~= s[0] + seq![sep] + x);
        assert(spec_join(s, sep) + seq![sep] + x =~= s[0] + seq![sep] + x);
    } else {
        assert(s.push(x).drop_first() =~= s.drop_first().push(x));
        lemma_join_push(s.drop_first(), x, sep);
        assert(spec_join(s.push(x), sep) =~= spec_join(s, sep) + seq![sep] + x);
    }
}

/// Joins `pieces` with a colon between consecutive pieces, as dependency
/// lists are written on the wire and in configuration files.
pub fn join_colon(pieces: &Vec<String>) -> (r: String)
    ensures
        r@ == spec_join(pieces.deep_view(), ':'),
{
    let mut out = String::new();
    let mut i: usize = 0;
    let n: usize = pieces.len();
    proof {
        reveal_strlit(":");
    }
    while i < n
        invariant
            i <= n,
            n == pieces.len(),
            out@ == spec_join(pieces.deep_view().subrange(0, i as int), ':'),
        decreases n - i,
    {
        let ghost prefix = pieces.deep_view().subrange(0, i as int);
        if i > 0 {
            out.append(":");
            proof {
                reveal_strlit(":");
                assert(":"@ =~= seq![':']);
            }
        }
        out.append(pieces[i].as_str());
        proof {
            let prefix2 = pieces.deep_view().subrange(0, i + 1);
            assert(prefix2 =~= prefix.push(pieces.deep_view()[i as int]));
            if i > 0 {
                lemma_join_push(prefix, pieces.deep_view()[i as int], ':');
            } else {
                assert(prefix2 =~= seq![pieces.deep_view()[0]]);
            }
        }
        i = i + 1;
    }
    proof {
        assert(pieces.deep_view().subrange(0, n as int) =~= pieces.deep_view());
    }
    out
}

} // verus!
