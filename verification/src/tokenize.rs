//! Splitting a string into its whitespace-separated tokens.
//!
//! The specification side models a string as a `Seq<char>`. `split_whitespace`
//! says what the tokens of a string are: skip leading whitespace, take the
//! maximal run of non-whitespace characters as the first token, and repeat on
//! the rest. The executable `split_string` is proved to return exactly those
//! tokens.

use vstd::prelude::*;
use vstd::string::StrSliceExecFns;

verus! {

/// Whether `c` has the Unicode `White_Space` property, the separator set a
/// whitespace tokenizer splits on.
pub open spec fn is_space(c: char) -> bool {
    let u = c as u32;
    u == 0x20 || (0x09 <= u && u <= 0x0d) || u == 0x85 || u == 0xa0 || u == 0x1680 || (0x2000 <= u
        && u <= 0x200a) || u == 0x2028 || u == 0x2029 || u == 0x202f || u == 0x205f || u == 0x3000
}

/// Executable test for `is_space`.
fn is_space_char(c: char) -> (r: bool)
    ensures
        r == is_space(c),
{
    let u = c as u32;
    u == 0x20 || (0x09 <= u && u <= 0x0d) || u == 0x85 || u == 0xa0 || u == 0x1680 || (0x2000 <= u
        && u <= 0x200a) || u == 0x2028 || u == 0x2029 || u == 0x202f || u == 0x205f || u == 0x3000
}

/// The length of the maximal non-whitespace prefix of `s`.
pub open spec fn token_len(s: Seq<char>) -> nat
    decreases s.len(),
{
    if s.len() == 0 || is_space(s[0]) {
        0
    } else {
        1 + token_len(s.drop_first())
    }
}

/// The maximal non-whitespace prefix is never longer than the string.
pub proof fn lemma_token_len_le(s: Seq<char>)
    ensures
        token_len(s) <= s.len(),
    decreases s.len(),
{
    if s.len() > 0 && !is_space(s[0]) {
        lemma_token_len_le(s.drop_first());
    }
}

/// The whitespace-separated tokens of `s`, in order of occurrence, empty
/// tokens discarded.
pub open spec fn split_whitespace(s: Seq<char>) -> Seq<Seq<char>>
    decreases s.len(),
    via split_whitespace_decreases
{
    if s.len() == 0 {
        Seq::empty()
    } else if is_space(s[0]) {
        split_whitespace(s.drop_first())
    } else {
        seq![s.take(token_len(s) as int)] + split_whitespace(s.skip(token_len(s) as int))
    }
}

#[via_fn]
proof fn split_whitespace_decreases(s: Seq<char>) {
    if s.len() > 0 && !is_space(s[0]) {
        lemma_token_len_le(s);
    }
}

/// `token_len(s)` is the position of the first whitespace character of `s`,
/// or the length of `s` when it has none.
proof fn lemma_token_len_eq(s: Seq<char>, k: nat)
    requires
        k <= s.len(),
        forall|m: int| 0 <= m < k ==> !is_space(s[m]),
        k == s.len() || is_space(s[k as int]),
    ensures
        token_len(s) == k,
    decreases k,
{
    if k > 0 {
        assert forall|m: int| 0 <= m < k - 1 implies !is_space(s.drop_first()[m]) by {
            assert(s.drop_first()[m] == s[m + 1]);
        }
        if k < s.len() {
            assert(s.drop_first()[k - 1] == s[k as int]);
        }
        lemma_token_len_eq(s.drop_first(), (k - 1) as nat);
    }
}

/// A well-formed token: nonempty and free of whitespace.
pub open spec fn is_token(t: Seq<char>) -> bool {
    t.len() > 0 && forall|k: int| 0 <= k < t.len() ==> !is_space(t[k])
}

/// Every element of `toks` is a well-formed token.
pub open spec fn all_tokens(toks: Seq<Seq<char>>) -> bool {
    forall|i: int| 0 <= i < toks.len() ==> is_token(#[trigger] toks[i])
}

/// `toks` joined into one string, a single space between adjacent tokens.
pub open spec fn join_with_space(toks: Seq<Seq<char>>) -> Seq<char>
    decreases toks.len(),
{
    if toks.len() == 0 {
        Seq::empty()
    } else if toks.len() == 1 {
        toks[0]
    } else {
        toks[0] + seq![' '] + join_with_space(toks.drop_first())
    }
}

/// The maximal non-whitespace prefix contains no whitespace.
proof fn lemma_token_len_chars(s: Seq<char>)
    ensures
        forall|m: int| 0 <= m < token_len(s) ==> !is_space(s[m]),
    decreases s.len(),
{
    if s.len() > 0 && !is_space(s[0]) {
        lemma_token_len_le(s);
        lemma_token_len_chars(s.drop_first());
        assert forall|m: int| 0 <= m < token_len(s) implies !is_space(s[m]) by {
            if m > 0 {
                assert(m < s.len());
                assert(s.drop_first()[m - 1] == s[m]);
            }
        }
    }
}

/// Every token that `split_whitespace` yields is nonempty and free of
/// whitespace.
pub proof fn lemma_split_tokens(s: Seq<char>)
    ensures
        all_tokens(split_whitespace(s)),
    decreases s.len(),
{
    if s.len() == 0 {
    } else if is_space(s[0]) {
        lemma_split_tokens(s.drop_first());
    } else {
        lemma_token_len_le(s);
        lemma_token_len_chars(s);
        lemma_split_tokens(s.skip(token_len(s) as int));
        let t = s.take(token_len(s) as int);
        assert(is_token(t)) by {
            assert forall|k: int| 0 <= k < t.len() implies !is_space(t[k]) by {
                assert(t[k] == s[k]);
            }
        }
        assert forall|i: int|
            0 <= i < split_whitespace(s).len() implies is_token(
            #[trigger] split_whitespace(s)[i],
        ) by {
            if i > 0 {
                assert(split_whitespace(s)[i] == split_whitespace(s.skip(token_len(s) as int))[i
                    - 1]);
            }
        }
    }
}

/// Splitting undoes joining: the tokens of a space-joined sequence of
/// well-formed tokens are that sequence again.
pub proof fn lemma_split_join(toks: Seq<Seq<char>>)
    requires
        all_tokens(toks),
    ensures
        split_whitespace(join_with_space(toks)) == toks,
    decreases toks.len(),
{
    let joined = join_with_space(toks);
    if toks.len() == 0 {
        assert(split_whitespace(joined) =~= toks);
    } else if toks.len() == 1 {
        let t = toks[0];
        assert(is_token(t));
        assert(!is_space(t[0]));
        lemma_token_len_eq(t, t.len());
        assert(t.take(t.len() as int) =~= t);
        assert(t.skip(t.len() as int) =~= Seq::<char>::empty());
        assert(split_whitespace(t) == seq![t] + split_whitespace(Seq::<char>::empty()));
        assert(split_whitespace(joined) =~= toks);
    } else {
        let t = toks[0];
        let rest = toks.drop_first();
        assert(is_token(t));
        assert forall|i: int| 0 <= i < rest.len() implies is_token(#[trigger] rest[i]) by {
            assert(rest[i] == toks[i + 1]);
        }
        lemma_split_join(rest);
        let jr = join_with_space(rest);
        assert(joined == t + seq![' '] + jr);
        assert forall|m: int| 0 <= m < t.len() implies !is_space(joined[m]) by {
            assert(joined[m] == t[m]);
        }
        assert(joined[t.len() as int] == ' ');
        assert(is_space(' '));
        lemma_token_len_eq(joined, t.len());
        assert(joined.take(t.len() as int) =~= t);
        let tail = joined.skip(t.len() as int);
        assert(tail[0] == ' ');
        assert(tail.drop_first() =~= jr);
        assert(!is_space(joined[0]));
        assert(split_whitespace(joined) == seq![joined.take(t.len() as int)]
            + split_whitespace(tail));
        assert(split_whitespace(tail) == split_whitespace(jr));
        assert(split_whitespace(joined) =~= toks);
    }
}

/// Splitting, joining with single spaces, and splitting again gives the same
/// tokens as splitting once.
pub proof fn lemma_split_join_roundtrip(s: Seq<char>)
    ensures
        split_whitespace(join_with_space(split_whitespace(s))) == split_whitespace(s),
{
    lemma_split_tokens(s);
    lemma_split_join(split_whitespace(s));
}

/// Splits `s` on runs of whitespace, discarding the separators, and returns
/// the remaining tokens in order of occurrence, duplicates preserved. An
/// empty or all-whitespace string yields no tokens.
pub fn split_string(s: &str) -> (r: Vec<String>)
    ensures
        r.deep_view() == split_whitespace(s@),
{
    let n: usize = s.unicode_len();
    let mut r: Vec<String> = Vec::new();
    let mut i: usize = 0;
    proof {
        assert(r.deep_view() =~= Seq::<Seq<char>>::empty());
        assert(s@.skip(0) =~= s@);
    }
    while i < n
        invariant
            n == s@.len(),
            i <= n,
            split_whitespace(s@) == r.deep_view() + split_whitespace(s@.skip(i as int)),
        decreases n - i,
    {
        let c = s.get_char(i);
        if is_space_char(c) {
            proof {
                assert(s@.skip(i as int)[0] == s@[i as int]);
                assert(s@.skip(i as int).drop_first() =~= s@.skip(i + 1));
            }
            i = i + 1;
        } else {
            let start = i;
            let mut j: usize = i + 1;
            while j < n && !is_space_char(s.get_char(j))
                invariant
                    n == s@.len(),
                    start < j <= n,
                    forall|m: int| start <= m < j ==> !is_space(s@[m]),
                decreases n - j,
            {
                j = j + 1;
            }
            let token = s.substring_char(start, j).to_owned();
            let ghost old_tokens = r.deep_view();
            r.push(token);
            proof {
                let tail = s@.skip(start as int);
                assert forall|m: int| 0 <= m < j - start implies !is_space(tail[m]) by {
                    assert(tail[m] == s@[start + m]);
                }
                if j < n {
                    assert(tail[j - start] == s@[j as int]);
                }
                lemma_token_len_eq(tail, (j - start) as nat);
                assert(tail.take(j - start) =~= s@.subrange(start as int, j as int));
                assert(tail.skip(j - start) =~= s@.skip(j as int));
                assert(r.deep_view() =~= old_tokens.push(token@));
                assert(old_tokens.push(token@) + split_whitespace(s@.skip(j as int)) =~= old_tokens
                    + split_whitespace(tail));
            }
            i = j;
        }
    }
    proof {
        assert(s@.skip(n as int) =~= Seq::<char>::empty());
        assert(r.deep_view() + split_whitespace(s@.skip(n as int)) =~= r.deep_view());
    }
    r
}

} // verus!
