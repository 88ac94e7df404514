use vstd::prelude::*;

use core_extensions::strings::StringExt;

use crate::decimal::is_digit;

verus! {

/// The characters of the runs, one run after the other.
pub open spec fn flatten(runs: Seq<(bool, Seq<char>)>) -> Seq<char>
    decreases runs.len(),
{
    if runs.len() == 0 {
        Seq::empty()
    } else {
        runs[0].1 + flatten(runs.drop_first())
    }
}

/// `runs` cuts `s` into maximal nonempty runs of digits and of non-digits,
/// each tagged with whether it is made of digits.
pub open spec fn is_digit_run_split(s: Seq<char>, runs: Seq<(bool, Seq<char>)>) -> bool {
    &&& flatten(runs) == s
    &&& forall|i: int| 0 <= i < runs.len() ==> #[trigger] runs[i].1.len() > 0
    &&& forall|i: int, j: int|
        0 <= i < runs.len() && 0 <= j < runs[i].1.len() ==> is_digit(#[trigger] runs[i].1[j])
            == runs[i].0
    &&& forall|i: int| 0 <= i < runs.len() - 1 ==> #[trigger] runs[i].0 != runs[i + 1].0
}

/// The digits at the start of `s`, up to its first non-digit.
pub open spec fn leading_digits(s: Seq<char>) -> Seq<char>
    decreases s.len(),
{
    if s.len() > 0 && is_digit(s[0]) {
        seq![s[0]] + leading_digits(s.drop_first())
    } else {
        Seq::empty()
    }
}

/// The first maximal run of digits in `s`; empty when `s` holds no digit.
pub open spec fn first_digit_run(s: Seq<char>) -> Seq<char>
    decreases s.len(),
{
    if s.len() == 0 {
        Seq::empty()
    } else if is_digit(s[0]) {
        leading_digits(s)
    } else {
        first_digit_run(s.drop_first())
    }
}

/// Whether `c` is one of `'0'..='9'`.
pub fn is_decimal_digit(c: char) -> (r: bool)
    ensures
        r == is_digit(c),
{
    '0' <= c && c <= '9'
}

/// Cuts `s` into runs with `core_extensions`' `StringExt::split_while`,
/// keyed by `is_decimal_digit`, and hands each run out as its key and text.
/// The contract states what that crate's source does: the runs are
/// nonempty, follow one another to make up `s`, every character of a run
/// has the run's key, and neighbouring runs have different keys.
#[verifier::external_body]
fn split_digit_runs<'a>(s: &'a str) -> (runs: Vec<(bool, &'a str)>)
    ensures
        is_digit_run_split(s@, runs@.map_values(|r: (bool, &'a str)| (r.0, r.1@))),
{
    s.split_while(|c| is_decimal_digit(c)).map(|run| (run.key, run.str)).collect()
}


proof fn lemma_skip_non_digits(a: Seq<char>, b: Seq<char>)
    requires
        forall|j: int| 0 <= j < a.len() ==> !is_digit(#[trigger] a[j]),
    ensures
        first_digit_run(a + b) == first_digit_run(b),
    decreases a.len(),
{
    if a.len() > 0 {
        assert((a + b).drop_first() =~= a.drop_first() + b);
        assert((a + b)[0] == a[0]);
        lemma_skip_non_digits(a.drop_first(), b);
    } else {
        assert(a + b =~= b);
    }
}

proof fn lemma_leading_digits(a: Seq<char>, b: Seq<char>)
    requires
        forall|j: int| 0 <= j < a.len() ==> is_digit(#[trigger] a[j]),
        b.len() == 0 || !is_digit(b[0]),
    ensures
        leading_digits(a + b) == a,
    decreases a.len(),
{
    if a.len() > 0 {
        assert((a + b).drop_first() =~= a.drop_first() + b);
        assert((a + b)[0] == a[0]);
        lemma_leading_digits(a.drop_first(), b);
        assert(seq![a[0]] + a.drop_first() =~= a);
    } else {
        assert(a + b =~= b);
    }
}

proof fn lemma_split_rest(s: Seq<char>, runs: Seq<(bool, Seq<char>)>)
    requires
        is_digit_run_split(s, runs),
        runs.len() > 0,
    ensures
        s == runs[0].1 + flatten(runs.drop_first()),
        is_digit_run_split(flatten(runs.drop_first()), runs.drop_first()),
        runs.len() > 1 ==> flatten(runs.drop_first())[0] == runs[1].1[0],
{
    let rest = runs.drop_first();
    assert forall|i: int| 0 <= i < rest.len() implies #[trigger] rest[i].1.len() > 0 by {
        assert(rest[i] == runs[i + 1]);
    }
    assert forall|i: int, j: int|
        0 <= i < rest.len() && 0 <= j < rest[i].1.len() implies is_digit(#[trigger] rest[i].1[j])
        == rest[i].0 by {
        assert(rest[i] == runs[i + 1]);
    }
    assert forall|i: int| 0 <= i < rest.len() - 1 implies #[trigger] rest[i].0 != rest[i + 1].0 by {
        assert(rest[i] == runs[i + 1]);
        assert(rest[i + 1] == runs[i + 2]);
    }
    if runs.len() > 1 {
        assert(rest[0] == runs[1]);
        assert(runs[1].1.len() > 0);
        assert(flatten(rest) == rest[0].1 + flatten(rest.drop_first()));
    }
}

/// When run `k` is the first run of digits, it is the first digit run of `s`.
proof fn lemma_first_digit_run_is_run(s: Seq<char>, runs: Seq<(bool, Seq<char>)>, k: int)
    requires
        is_digit_run_split(s, runs),
        0 <= k < runs.len(),
        runs[k].0,
        forall|j: int| 0 <= j < k ==> !(#[trigger] runs[j].0),
    ensures
        first_digit_run(s) == runs[k].1,
    decreases k,
{
    lemma_split_rest(s, runs);
    let rest = runs.drop_first();
    assert(runs[0].1.len() > 0);
    if k == 0 {
        assert forall|j: int| 0 <= j < runs[0].1.len() implies is_digit(#[trigger] runs[0].1[j]) by {
            assert(is_digit(runs[0].1[j]) == runs[0].0);
        }
        if runs.len() > 1 {
            assert(runs[0].0 != runs[1].0);
            assert(is_digit(runs[1].1[0]) == runs[1].0);
        }
        lemma_leading_digits(runs[0].1, flatten(rest));
        assert(s[0] == runs[0].1[0]);
        assert(is_digit(runs[0].1[0]) == runs[0].0);
    } else {
        assert forall|j: int| 0 <= j < runs[0].1.len() implies !is_digit(#[trigger] runs[0].1[j]) by {
            assert(is_digit(runs[0].1[j]) == runs[0].0);
        }
        lemma_skip_non_digits(runs[0].1, flatten(rest));
        assert forall|j: int| 0 <= j < k - 1 implies !(#[trigger] rest[j].0) by {
            assert(rest[j] == runs[j + 1]);
        }
        assert(rest[k - 1] == runs[k]);
        lemma_first_digit_run_is_run(flatten(rest), rest, k - 1);
    }
}

/// When no run is made of digits, `s` has no digit run.
proof fn lemma_no_digit_run(s: Seq<char>, runs: Seq<(bool, Seq<char>)>)
    requires
        is_digit_run_split(s, runs),
        forall|j: int| 0 <= j < runs.len() ==> !(#[trigger] runs[j].0),
    ensures
        first_digit_run(s).len() == 0,
    decreases runs.len(),
{
    if runs.len() == 0 {
        assert(s.len() == 0);
    } else {
        lemma_split_rest(s, runs);
        let rest = runs.drop_first();
        assert forall|j: int| 0 <= j < runs[0].1.len() implies !is_digit(#[trigger] runs[0].1[j]) by {
            assert(is_digit(runs[0].1[j]) == runs[0].0);
        }
        lemma_skip_non_digits(runs[0].1, flatten(rest));
        assert forall|j: int| 0 <= j < rest.len() implies !(#[trigger] rest[j].0) by {
            assert(rest[j] == runs[j + 1]);
        }
        lemma_no_digit_run(flatten(rest), rest);
    }
}

/// A text made of digits alone is its own patch text.
pub proof fn lemma_patch_digits_of_digits(s: Seq<char>)
    requires
        s.len() > 0,
        forall|j: int| 0 <= j < s.len() ==> is_digit(#[trigger] s[j]),
    ensures
        patch_digits(s) == s,
{
    lemma_leading_digits(s, Seq::empty());
    assert(s + Seq::<char>::empty() =~= s);
    assert(is_digit(s[0]));
}

/// The patch text of `pre + d + post` is the whole run `d`: the first
/// maximal run of digits, with only non-digits before it and a non-digit
/// (or the end) after it, whatever follows.
pub proof fn lemma_patch_digits_first_run(pre: Seq<char>, d: Seq<char>, post: Seq<char>)
    requires
        forall|j: int| 0 <= j < pre.len() ==> !is_digit(#[trigger] pre[j]),
        d.len() > 0,
        forall|j: int| 0 <= j < d.len() ==> is_digit(#[trigger] d[j]),
        post.len() == 0 || !is_digit(post[0]),
    ensures
        patch_digits(pre + d + post) == d,
{
    assert(pre + d + post =~= pre + (d + post));
    lemma_skip_non_digits(pre, d + post);
    lemma_leading_digits(d, post);
    assert((d + post)[0] == d[0]);
    assert(is_digit(d[0]));
}

/// A text with no digit has `"0"` as its patch text.
pub proof fn lemma_patch_digits_without_digits(s: Seq<char>)
    requires
        forall|j: int| 0 <= j < s.len() ==> !is_digit(#[trigger] s[j]),
    ensures
        patch_digits(s) == seq!['0'],
{
    lemma_skip_non_digits(s, Seq::empty());
    assert(s + Seq::<char>::empty() =~= s);
}

/// The text that a version's patch number is read from: the first run of
/// digits in `s`, or `"0"` when `s` holds none.
pub open spec fn patch_digits(s: Seq<char>) -> Seq<char> {
    if first_digit_run(s).len() == 0 {
        seq!['0']
    } else {
        first_digit_run(s)
    }
}

/// Picks, out of `s`, the text that the patch number is read from: the
/// first run of digits of `s` as `split_while` cuts it, or `"0"`.
pub fn patch_text<'a>(s: &'a str) -> (r: &'a str)
    ensures
        r@ == patch_digits(s@),
{
    let runs = split_digit_runs(s);
    let ghost plain = runs@.map_values(|r: (bool, &'a str)| (r.0, r.1@));
    let mut i: usize = 0;
    while i < runs.len()
        invariant
            i <= runs.len(),
            plain == runs@.map_values(|r: (bool, &'a str)| (r.0, r.1@)),
            is_digit_run_split(s@, plain),
            forall|j: int| 0 <= j < i ==> !(#[trigger] plain[j].0),
        decreases runs.len() - i,
    {
        if runs[i].0 {
            proof {
                lemma_first_digit_run_is_run(s@, plain, i as int);
                assert(plain[i as int].1.len() > 0);
            }
            return runs[i].1;
        }
        i = i + 1;
    }
    proof {
        lemma_no_digit_run(s@, plain);
        reveal_strlit("0");
    }
    let zero = "0";
    assert(zero@ =~= seq!['0']);
    zero
}

} // verus!
