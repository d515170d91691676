//! Whitespace at the two ends of a text, and what is left without it.
use vstd::prelude::*;

verus! {

/// The characters with the Unicode property `White_Space`.
pub open spec fn is_white_space(c: char) -> bool {
    let u = c as u32;
    ||| 0x09 <= u <= 0x0D
    ||| u == 0x20
    ||| u == 0x85
    ||| u == 0xA0
    ||| u == 0x1680
    ||| 0x2000 <= u <= 0x200A
    ||| u == 0x2028
    ||| u == 0x2029
    ||| u == 0x202F
    ||| u == 0x205F
    ||| u == 0x3000
}

/// How many whitespace characters `s` starts with.
pub open spec fn leading_white_space(s: Seq<char>) -> nat
    decreases s.len(),
{
    if s.len() > 0 && is_white_space(s[0]) {
        1 + leading_white_space(s.drop_first())
    } else {
        0
    }
}

/// How many whitespace characters `s` ends with.
pub open spec fn trailing_white_space(s: Seq<char>) -> nat
    decreases s.len(),
{
    if s.len() > 0 && is_white_space(s.last()) {
        1 + trailing_white_space(s.drop_last())
    } else {
        0
    }
}

/// `s` without its leading whitespace.
pub open spec fn trimmed_start(s: Seq<char>) -> Seq<char> {
    s.skip(leading_white_space(s) as int)
}

/// `s` without its trailing whitespace.
pub open spec fn trimmed_end(s: Seq<char>) -> Seq<char> {
    s.take(s.len() - trailing_white_space(s))
}

/// `s` without its leading and trailing whitespace.
pub open spec fn trimmed(s: Seq<char>) -> Seq<char> {
    trimmed_start(trimmed_end(s))
}

/// `str::trim_start` returns the text without its leading whitespace, where
/// whitespace is what has the Unicode property `White_Space`.
pub assume_specification[ str::trim_start ](s: &str) -> (r: &str)
    ensures
        r@ == trimmed_start(s@),
;

/// `str::trim_end` returns the text without its trailing whitespace, where
/// whitespace is what has the Unicode property `White_Space`.
pub assume_specification[ str::trim_end ](s: &str) -> (r: &str)
    ensures
        r@ == trimmed_end(s@),
;

/// The leading whitespace of `s` is a prefix of whitespace that ends at the
/// first other character, or at the end of `s`.
pub proof fn lemma_leading_white_space(s: Seq<char>)
    ensures
        leading_white_space(s) <= s.len(),
        forall|i: int| 0 <= i < leading_white_space(s) ==> is_white_space(#[trigger] s[i]),
        leading_white_space(s) < s.len() ==> !is_white_space(s[leading_white_space(s) as int]),
    decreases s.len(),
{
    if s.len() > 0 && is_white_space(s[0]) {
        let rest = s.drop_first();
        lemma_leading_white_space(rest);
        assert forall|i: int| 0 <= i < leading_white_space(s) implies is_white_space(
            #[trigger] s[i],
        ) by {
            if i > 0 {
                assert(s[i] == rest[i - 1]);
            }
        }
        if leading_white_space(s) < s.len() {
            assert(s[leading_white_space(s) as int] == rest[leading_white_space(rest) as int]);
        }
    }
}

/// Only one prefix of `s` is whitespace throughout and ends at the first
/// other character or at the end of `s`.
pub proof fn lemma_leading_white_space_unique(s: Seq<char>, k: int)
    requires
        0 <= k <= s.len(),
        forall|i: int| 0 <= i < k ==> is_white_space(#[trigger] s[i]),
        k < s.len() ==> !is_white_space(s[k]),
    ensures
        leading_white_space(s) == k,
    decreases s.len(),
{
    if k > 0 {
        let rest = s.drop_first();
        assert(is_white_space(s[0]));
        assert forall|i: int| 0 <= i < k - 1 implies is_white_space(#[trigger] rest[i]) by {
            assert(rest[i] == s[i + 1]);
        }
        if k - 1 < rest.len() {
            assert(rest[k - 1] == s[k]);
        }
        lemma_leading_white_space_unique(rest, k - 1);
    }
}

/// The trailing whitespace of `s` is a suffix of whitespace that starts
/// after the last other character, or at the start of `s`.
pub proof fn lemma_trailing_white_space(s: Seq<char>)
    ensures
        trailing_white_space(s) <= s.len(),
        forall|i: int|
            s.len() - trailing_white_space(s) <= i < s.len() ==> is_white_space(#[trigger] s[i]),
        trailing_white_space(s) < s.len() ==> !is_white_space(
            s[s.len() - trailing_white_space(s) - 1],
        ),
    decreases s.len(),
{
    if s.len() > 0 && is_white_space(s.last()) {
        let rest = s.drop_last();
        lemma_trailing_white_space(rest);
        assert forall|i: int|
            s.len() - trailing_white_space(s) <= i < s.len() implies is_white_space(
            #[trigger] s[i],
        ) by {
            if i < s.len() - 1 {
                assert(s[i] == rest[i]);
            }
        }
        if trailing_white_space(s) < s.len() {
            assert(s[s.len() - trailing_white_space(s) - 1] == rest[rest.len()
                - trailing_white_space(rest) - 1]);
        }
    }
}

/// Only one suffix of `s` is whitespace throughout and starts after the last
/// other character or at the start of `s`.
pub proof fn lemma_trailing_white_space_unique(s: Seq<char>, k: int)
    requires
        0 <= k <= s.len(),
        forall|i: int| s.len() - k <= i < s.len() ==> is_white_space(#[trigger] s[i]),
        k < s.len() ==> !is_white_space(s[s.len() - k - 1]),
    ensures
        trailing_white_space(s) == k,
    decreases s.len(),
{
    if k > 0 {
        let rest = s.drop_last();
        assert(is_white_space(s[s.len() - 1]));
        assert forall|i: int| rest.len() - (k - 1) <= i < rest.len() implies is_white_space(
            #[trigger] rest[i],
        ) by {
            assert(rest[i] == s[i]);
        }
        if k - 1 < rest.len() {
            assert(rest[rest.len() - (k - 1) - 1] == s[s.len() - k - 1]);
        }
        lemma_trailing_white_space_unique(rest, k - 1);
    }
}

/// What is left after the leading whitespace is gone has none.
pub proof fn law_trimmed_start_idempotent(s: Seq<char>)
    ensures
        leading_white_space(trimmed_start(s)) == 0,
        trimmed_start(trimmed_start(s)) == trimmed_start(s),
{
    lemma_leading_white_space(s);
    let rest = trimmed_start(s);
    if rest.len() > 0 {
        assert(rest[0] == s[leading_white_space(s) as int]);
    }
    lemma_leading_white_space_unique(rest, 0);
    assert(rest.skip(0) =~= rest);
}

/// What is left after the trailing whitespace is gone has none.
pub proof fn law_trimmed_end_idempotent(s: Seq<char>)
    ensures
        trailing_white_space(trimmed_end(s)) == 0,
        trimmed_end(trimmed_end(s)) == trimmed_end(s),
{
    lemma_trailing_white_space(s);
    let rest = trimmed_end(s);
    if rest.len() > 0 {
        assert(rest[rest.len() - 1] == s[s.len() - trailing_white_space(s) - 1]);
    }
    lemma_trailing_white_space_unique(rest, 0);
    assert(rest.take(rest.len() as int) =~= rest);
}

/// The two ends can be trimmed in either order: what is left is the part of
/// `s` between its leading and its trailing whitespace.
pub proof fn law_trim_order(s: Seq<char>)
    ensures
        trimmed_start(trimmed_end(s)) == trimmed_end(trimmed_start(s)),
        leading_white_space(s) < s.len() ==> trimmed(s) == s.subrange(
            leading_white_space(s) as int,
            s.len() - trailing_white_space(s),
        ),
        leading_white_space(s) == s.len() ==> trimmed(s) == Seq::<char>::empty(),
{
    let n = s.len() as int;
    let k = leading_white_space(s) as int;
    let m = trailing_white_space(s) as int;
    lemma_leading_white_space(s);
    lemma_trailing_white_space(s);
    let front = trimmed_end(s);
    let back = trimmed_start(s);
    if k == n {
        lemma_trailing_white_space_unique(s, n);
        lemma_leading_white_space_unique(front, 0);
        lemma_trailing_white_space_unique(back, 0);
        assert(trimmed_start(front) =~= trimmed_end(back));
        assert(trimmed(s) =~= Seq::<char>::empty());
    } else {
        assert(k < n - m) by {
            if k >= n - m {
                assert(is_white_space(s[k]));
            }
        }
        assert forall|i: int| 0 <= i < k implies is_white_space(#[trigger] front[i]) by {
            assert(front[i] == s[i]);
        }
        assert(front[k] == s[k]);
        lemma_leading_white_space_unique(front, k);
        assert forall|i: int| back.len() - m <= i < back.len() implies is_white_space(
            #[trigger] back[i],
        ) by {
            assert(back[i] == s[i + k]);
        }
        assert(back[back.len() - m - 1] == s[n - m - 1]);
        lemma_trailing_white_space_unique(back, m);
        assert(trimmed_start(front) =~= s.subrange(k, n - m));
        assert(trimmed_end(back) =~= s.subrange(k, n - m));
    }
}

/// Trimmed text has no whitespace left at either end, so trimming it again
/// changes nothing.
pub proof fn law_trimmed_idempotent(s: Seq<char>)
    ensures
        trimmed(trimmed(s)) == trimmed(s),
{
    let front = trimmed_end(s);
    law_trim_order(front);
    law_trimmed_end_idempotent(s);
    law_trimmed_start_idempotent(front);
}

} // verus!
