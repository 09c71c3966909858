//! Small verified string helpers: character-wise equality and splitting at
//! whitespace, the two operations the selector matcher needs.

use vstd::prelude::*;

verus! {

/// Character-wise string equality.
pub fn str_eq(a: &str, b: &str) -> (r: bool)
    ensures
        r == (a@ == b@),
{
    let alen = a.unicode_len();
    let blen = b.unicode_len();
    if alen != blen {
        return false;
    }
    let mut i: usize = 0;
    while i < alen
        invariant
            i <= alen,
            alen == a@.len(),
            alen == b@.len(),
            forall|j: int| 0 <= j < i ==> a@[j] == b@[j],
        decreases alen - i,
    {
        if a.get_char(i) != b.get_char(i) {
            return false;
        }
        i = i + 1;
    }
    proof {
        assert(a@ =~= b@);
    }
    true
}

/// Is `c` a whitespace character? Splitting recognises the ASCII whitespace
/// characters: space, tab, line feed and carriage return.
pub open spec fn is_space_char(c: char) -> bool {
    c == ' ' || c == '\t' || c == '\n' || c == '\r'
}

/// Is `c` a whitespace character?
pub fn is_space(c: char) -> (r: bool)
    ensures
        r == is_space_char(c),
{
    c == ' ' || c == '\t' || c == '\n' || c == '\r'
}

/// The whitespace-split tokens of `s`: the maximal runs of non-whitespace
/// characters, in order. Runs of whitespace separate tokens and never
/// produce empty ones, so an all-whitespace (or empty) string has no tokens.
pub open spec fn split_ws_v(s: Seq<char>) -> Seq<Seq<char>>
    decreases s.len(),
{
    if s.len() == 0 {
        Seq::empty()
    } else if is_space_char(s[0]) {
        split_ws_v(s.drop_first())
    } else {
        let rest = split_ws_v(s.drop_first());
        if s.len() == 1 || is_space_char(s[1]) {
            seq![seq![s[0]]].add(rest)
        } else {
            seq![seq![s[0]].add(rest[0])].add(rest.drop_first())
        }
    }
}

/// Splitting off the leading token: if `s` starts with `k` non-whitespace
/// characters followed by whitespace (or the end), they form the first
/// token, and the remaining tokens are the split of what follows.
proof fn lemma_ws_token(t: Seq<char>, k: int)
    requires
        t.len() >= 1,
        1 <= k <= t.len(),
        forall|m: int| 0 <= m < k ==> !is_space_char(t[m]),
        k == t.len() || is_space_char(t[k]),
    ensures
        split_ws_v(t) =~= seq![t.subrange(0, k)].add(split_ws_v(t.subrange(k, t.len() as int))),
    decreases k,
{
    if k == 1 {
        assert(t.subrange(0, 1) =~= seq![t[0]]);
        assert(t.subrange(1, t.len() as int) =~= t.drop_first());
    } else {
        let dt = t.drop_first();
        lemma_ws_token(dt, k - 1);
        let rest = split_ws_v(dt);
        assert(rest[0] == dt.subrange(0, k - 1));
        assert(seq![t[0]].add(dt.subrange(0, k - 1)) =~= t.subrange(0, k));
        assert(rest.drop_first() =~= split_ws_v(dt.subrange(k - 1, dt.len() as int)));
        assert(dt.subrange(k - 1, dt.len() as int) =~= t.subrange(k, t.len() as int));
    }
}

/// Split `s` at whitespace into its (non-empty) tokens, in order.
pub fn split_ws(s: &str) -> (r: Vec<String>)
    ensures
        r.deep_view() == split_ws_v(s@),
{
    let len = s.unicode_len();
    let mut out: Vec<String> = Vec::new();
    let mut i: usize = 0;
    proof {
        assert(s@.subrange(0, len as int) =~= s@);
        assert(out.deep_view() =~= Seq::<Seq<char>>::empty());
    }
    while i < len
        invariant
            i <= len,
            len == s@.len(),
            split_ws_v(s@) =~= out.deep_view().add(
                split_ws_v(s@.subrange(i as int, len as int)),
            ),
        decreases len - i,
    {
        if is_space(s.get_char(i)) {
            proof {
                let t = s@.subrange(i as int, len as int);
                assert(t[0] == s@[i as int]);
                assert(t.drop_first() =~= s@.subrange(i as int + 1, len as int));
            }
            i = i + 1;
        } else {
            let mut j = i + 1;
            while j < len && !is_space(s.get_char(j))
                invariant
                    i < j <= len,
                    len == s@.len(),
                    forall|m: int| i < m < j ==> !is_space_char(s@[m]),
                decreases len - j,
            {
                j = j + 1;
            }
            let tok = s.substring_char(i, j).to_owned();
            let ghost before = out.deep_view();
            out.push(tok);
            proof {
                let t = s@.subrange(i as int, len as int);
                assert(forall|m: int| 0 <= m < j - i ==> t[m] == s@[i + m]);
                lemma_ws_token(t, j - i);
                assert(t.subrange(0, j - i) =~= s@.subrange(i as int, j as int));
                assert(t.subrange(j - i, t.len() as int) =~= s@.subrange(j as int, len as int));
                assert(tok@ == s@.subrange(i as int, j as int));
                assert(out.deep_view() =~= before.push(s@.subrange(i as int, j as int)));
                assert(before.push(s@.subrange(i as int, j as int)).add(
                    split_ws_v(s@.subrange(j as int, len as int)),
                ) =~= split_ws_v(s@));
            }
            i = j;
        }
    }
    proof {
        assert(s@.subrange(len as int, len as int) =~= Seq::<char>::empty());
        assert(out.deep_view().add(Seq::<Seq<char>>::empty()) =~= out.deep_view());
    }
    out
}

} // verus!
