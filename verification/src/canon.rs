//! The canonical shape of rewritten names: what each stage's output looks
//! like, and the fact that every stage leaves an already-canonical name
//! unchanged.  Together these give the idempotence law in `laws`.

use vstd::prelude::*;

use crate::chars::{is_lower, is_upper, is_digit, is_alpha, is_sep, is_bracket, is_blacklisted,
    is_dash_punct, to_lower};
use crate::classify::first_dot_from;
use crate::rewrite::{camel_prefix, spec_split_camel_case, number_break, number_prefix,
    spec_split_numbers, spec_remove_brackets, spec_punct_to_dash, spec_underscores_to_dashes,
    run_has_dash, mixed_at, mixed_prefix, spec_collapse_mixed_separators, runs_prefix,
    spec_collapse_runs, spec_trim_trailing, spec_to_lowercase};

verus! {

// ---------------------------------------------------------------------------
// Run collapsing: structure of the output
// ---------------------------------------------------------------------------

/// A collapsed prefix is never empty and always ends with the character
/// the original prefix ends with.
pub proof fn lemma_runs_prefix_last(s: Seq<char>, c: char, n: int)
    requires
        1 <= n <= s.len(),
    ensures
        runs_prefix(s, c, n).len() >= 1,
        runs_prefix(s, c, n).last() == s[n - 1],
    decreases n,
{
    if n > 1 {
        lemma_runs_prefix_last(s, c, n - 1);
    }
}

/// Run collapsing never introduces a character pair that the input did not
/// already hold.
pub proof fn lemma_runs_pairs(s: Seq<char>, c: char, p: spec_fn(char, char) -> bool)
    requires
        forall|i: int| 0 <= i && i + 1 < s.len() ==> !p(#[trigger] s[i], s[i + 1]),
    ensures
        forall|j: int|
            0 <= j && j + 1 < spec_collapse_runs(s, c).len() ==> !p(
                #[trigger] spec_collapse_runs(s, c)[j],
                spec_collapse_runs(s, c)[j + 1],
            ),
{
    lemma_runs_prefix_pairs(s, c, p, s.len() as int);
}

proof fn lemma_runs_prefix_pairs(s: Seq<char>, c: char, p: spec_fn(char, char) -> bool, n: int)
    requires
        0 <= n <= s.len(),
        forall|i: int| 0 <= i && i + 1 < s.len() ==> !p(#[trigger] s[i], s[i + 1]),
    ensures
        forall|j: int|
            0 <= j && j + 1 < runs_prefix(s, c, n).len() ==> !p(
                #[trigger] runs_prefix(s, c, n)[j],
                runs_prefix(s, c, n)[j + 1],
            ),
    decreases n,
{
    if n > 0 {
        lemma_runs_prefix_pairs(s, c, p, n - 1);
        if n > 1 {
            lemma_runs_prefix_last(s, c, n - 1);
        }
        let pre = runs_prefix(s, c, n - 1);
        let cur = runs_prefix(s, c, n);
        assert forall|j: int| 0 <= j && j + 1 < cur.len() implies !p(
            #[trigger] cur[j],
            cur[j + 1],
        ) by {
            if j + 1 < pre.len() {
                assert(cur[j] == pre[j] && cur[j + 1] == pre[j + 1]);
            } else if j + 1 == pre.len() && pre.len() < cur.len() {
                assert(cur[j] == pre[j] && cur[j + 1] == s[n - 1]);
            }
        }
    }
}

/// Run collapsing keeps only characters of the input.
pub proof fn lemma_runs_chars(s: Seq<char>, c: char)
    ensures
        forall|j: int|
            0 <= j < spec_collapse_runs(s, c).len() ==> exists|i: int|
                0 <= i < s.len() && s[i] == #[trigger] spec_collapse_runs(s, c)[j],
{
    lemma_runs_prefix_chars(s, c, s.len() as int);
}

proof fn lemma_runs_prefix_chars(s: Seq<char>, c: char, n: int)
    requires
        0 <= n <= s.len(),
    ensures
        forall|j: int|
            0 <= j < runs_prefix(s, c, n).len() ==> exists|i: int|
                0 <= i < s.len() && s[i] == #[trigger] runs_prefix(s, c, n)[j],
    decreases n,
{
    if n > 0 {
        lemma_runs_prefix_chars(s, c, n - 1);
        let pre = runs_prefix(s, c, n - 1);
        let cur = runs_prefix(s, c, n);
        assert forall|j: int| 0 <= j < cur.len() implies exists|i: int|
            0 <= i < s.len() && s[i] == #[trigger] cur[j] by {
            if j < pre.len() {
                assert(cur[j] == pre[j]);
                let w = choose|i: int| 0 <= i < s.len() && s[i] == pre[j];
                assert(0 <= w < s.len() && s[w] == cur[j]);
            } else {
                assert(cur[j] == s[n - 1]);
            }
        }
    }
}

/// After collapsing, no two adjacent characters are both `c`.
pub proof fn lemma_runs_establish(s: Seq<char>, c: char)
    ensures
        forall|j: int|
            0 <= j && j + 1 < spec_collapse_runs(s, c).len() ==> !(
            #[trigger] spec_collapse_runs(s, c)[j] == c && spec_collapse_runs(s, c)[j + 1] == c),
{
    lemma_runs_prefix_establish(s, c, s.len() as int);
}

proof fn lemma_runs_prefix_establish(s: Seq<char>, c: char, n: int)
    requires
        0 <= n <= s.len(),
    ensures
        forall|j: int|
            0 <= j && j + 1 < runs_prefix(s, c, n).len() ==> !(#[trigger] runs_prefix(s, c, n)[j]
                == c && runs_prefix(s, c, n)[j + 1] == c),
    decreases n,
{
    if n > 0 {
        lemma_runs_prefix_establish(s, c, n - 1);
        if n > 1 {
            lemma_runs_prefix_last(s, c, n - 1);
        }
        let pre = runs_prefix(s, c, n - 1);
        let cur = runs_prefix(s, c, n);
        assert forall|j: int| 0 <= j && j + 1 < cur.len() implies !(#[trigger] cur[j] == c
            && cur[j + 1] == c) by {
            if j + 1 < pre.len() {
                assert(cur[j] == pre[j] && cur[j + 1] == pre[j + 1]);
            } else if j + 1 == pre.len() && pre.len() < cur.len() {
                assert(cur[j] == pre[j] && cur[j + 1] == s[n - 1]);
            }
        }
    }
}

/// On an input with no doubled `c`, run collapsing changes nothing.
pub proof fn lemma_runs_noop(s: Seq<char>, c: char)
    requires
        forall|i: int| 0 <= i && i + 1 < s.len() ==> !(#[trigger] s[i] == c && s[i + 1] == c),
    ensures
        spec_collapse_runs(s, c) == s,
{
    lemma_runs_prefix_noop(s, c, s.len() as int);
    assert(runs_prefix(s, c, s.len() as int) =~= s);
}

proof fn lemma_runs_prefix_noop(s: Seq<char>, c: char, n: int)
    requires
        0 <= n <= s.len(),
        forall|i: int| 0 <= i && i + 1 < s.len() ==> !(#[trigger] s[i] == c && s[i + 1] == c),
    ensures
        runs_prefix(s, c, n) == s.take(n),
    decreases n,
{
    if n > 0 {
        lemma_runs_prefix_noop(s, c, n - 1);
        assert(runs_prefix(s, c, n) =~= s.take(n));
    } else {
        assert(runs_prefix(s, c, n) =~= s.take(n));
    }
}

// ---------------------------------------------------------------------------
// Case folding: classes of characters are preserved
// ---------------------------------------------------------------------------

/// Folding one character keeps its letter, digit, separator, dot,
/// punctuation and bracket status, and never yields an uppercase letter.
pub proof fn lemma_to_lower_classes(c: char)
    ensures
        is_alpha(to_lower(c)) == is_alpha(c),
        is_digit(to_lower(c)) == is_digit(c),
        is_sep(to_lower(c)) == is_sep(c),
        (to_lower(c) == '.') == (c == '.'),
        (to_lower(c) == '_') == (c == '_'),
        is_dash_punct(to_lower(c)) == is_dash_punct(c),
        is_bracket(to_lower(c)) == is_bracket(c),
        !is_upper(to_lower(c)),
        !is_upper(c) ==> to_lower(c) == c,
{
    if is_upper(c) {
        assert('a' <= ((c as u8) + 32) as char <= 'z');
    }
}

/// On a name with no uppercase letter, case folding changes nothing.
pub proof fn lemma_lower_noop(s: Seq<char>)
    requires
        forall|i: int| 0 <= i < s.len() ==> !is_upper(#[trigger] s[i]),
    ensures
        spec_to_lowercase(s) == s,
{
    assert forall|i: int| 0 <= i < s.len() implies #[trigger] spec_to_lowercase(s)[i] == s[i] by {
        lemma_to_lower_classes(s[i]);
    }
    assert(spec_to_lowercase(s) =~= s);
}

// ---------------------------------------------------------------------------
// No-op facts for the remaining stages
// ---------------------------------------------------------------------------

/// On a name with no uppercase letter, the camel-case splitter changes
/// nothing.
pub proof fn lemma_camel_noop(s: Seq<char>)
    requires
        forall|i: int| 0 <= i < s.len() ==> !is_upper(#[trigger] s[i]),
    ensures
        spec_split_camel_case(s) == s,
{
    lemma_camel_prefix_noop(s, s.len() as int);
    assert(camel_prefix(s, s.len() as int) =~= s);
}

proof fn lemma_camel_prefix_noop(s: Seq<char>, n: int)
    requires
        0 <= n <= s.len(),
        forall|i: int| 0 <= i < s.len() ==> !is_upper(#[trigger] s[i]),
    ensures
        camel_prefix(s, n) == s.take(n),
    decreases n,
{
    if n > 0 {
        lemma_camel_prefix_noop(s, n - 1);
    }
    assert(camel_prefix(s, n) =~= s.take(n));
}

/// On a name with no letter/digit adjacency, the number-boundary splitter
/// changes nothing.
pub proof fn lemma_numbers_noop(s: Seq<char>)
    requires
        forall|i: int|
            0 <= i && i + 1 < s.len() ==> !((is_alpha(#[trigger] s[i]) && is_digit(s[i + 1])) || (
            is_digit(s[i]) && is_alpha(s[i + 1]))),
    ensures
        spec_split_numbers(s) == s,
{
    lemma_numbers_prefix_noop(s, s.len() as int);
    assert(number_prefix(s, s.len() as int) =~= s);
}

proof fn lemma_numbers_prefix_noop(s: Seq<char>, n: int)
    requires
        0 <= n <= s.len(),
        forall|i: int|
            0 <= i && i + 1 < s.len() ==> !((is_alpha(#[trigger] s[i]) && is_digit(s[i + 1])) || (
            is_digit(s[i]) && is_alpha(s[i + 1]))),
    ensures
        number_prefix(s, n) == s.take(n),
    decreases n,
{
    if n > 0 {
        lemma_numbers_prefix_noop(s, n - 1);
    }
    assert(number_prefix(s, n) =~= s.take(n));
}

/// On a name without brackets, bracket removal changes nothing.
pub proof fn lemma_brackets_noop(s: Seq<char>)
    requires
        forall|i: int| 0 <= i < s.len() ==> !is_bracket(#[trigger] s[i]),
    ensures
        spec_remove_brackets(s) == s,
    decreases s.len(),
{
    if s.len() > 0 {
        assert forall|i: int| 0 <= i < s.drop_last().len() implies !is_bracket(
            #[trigger] s.drop_last()[i],
        ) by {
            assert(s.drop_last()[i] == s[i]);
        }
        lemma_brackets_noop(s.drop_last());
        assert(spec_remove_brackets(s) =~= s);
    } else {
        assert(spec_remove_brackets(s) =~= s);
    }
}

/// On a name without the replaced punctuation, the punctuation stage
/// changes nothing.
pub proof fn lemma_punct_noop(s: Seq<char>)
    requires
        forall|i: int| 0 <= i < s.len() ==> !is_dash_punct(#[trigger] s[i]),
    ensures
        spec_punct_to_dash(s) == s,
{
    assert(spec_punct_to_dash(s) =~= s);
}

/// On a name without underscores, the `force_dash` substitution changes
/// nothing.
pub proof fn lemma_underscores_noop(s: Seq<char>)
    requires
        forall|i: int| 0 <= i < s.len() ==> #[trigger] s[i] != '_',
    ensures
        spec_underscores_to_dashes(s) == s,
{
    assert(spec_underscores_to_dashes(s) =~= s);
}

/// On a name with no two adjacent separators, the mixed-separator collapse
/// changes nothing.
pub proof fn lemma_mixed_noop(s: Seq<char>)
    requires
        forall|i: int|
            0 <= i && i + 1 < s.len() ==> !(is_sep(#[trigger] s[i]) && is_sep(s[i + 1])),
    ensures
        spec_collapse_mixed_separators(s) == s,
{
    lemma_mixed_prefix_noop(s, s.len() as int);
    assert(mixed_prefix(s, s.len() as int) =~= s);
}

proof fn lemma_mixed_prefix_noop(s: Seq<char>, n: int)
    requires
        0 <= n <= s.len(),
        forall|i: int|
            0 <= i && i + 1 < s.len() ==> !(is_sep(#[trigger] s[i]) && is_sep(s[i + 1])),
    ensures
        mixed_prefix(s, n) == s.take(n),
    decreases n,
{
    if n > 0 {
        lemma_mixed_prefix_noop(s, n - 1);
        if is_sep(s[n - 1]) {
            // the run ending here is this one character alone
            assert(!(n - 2 >= 0 && is_sep(s[n - 2])));
            assert(!run_has_dash(s, n - 2));
            assert(run_has_dash(s, n - 1) == (s[n - 1] == '-'));
        }
    }
    assert(mixed_prefix(s, n) =~= s.take(n));
}

// ---------------------------------------------------------------------------
// The splitters: structure of the output
// ---------------------------------------------------------------------------

/// The camel-case splitter emits only dashes and characters of the input.
pub proof fn lemma_camel_chars(s: Seq<char>)
    ensures
        forall|j: int|
            0 <= j < spec_split_camel_case(s).len() ==> #[trigger] spec_split_camel_case(s)[j]
                == '-' || (exists|i: int| 0 <= i < s.len() && s[i] == spec_split_camel_case(s)[j]),
{
    lemma_camel_prefix_chars(s, s.len() as int);
}

proof fn lemma_camel_prefix_chars(s: Seq<char>, n: int)
    requires
        0 <= n <= s.len(),
    ensures
        forall|j: int|
            0 <= j < camel_prefix(s, n).len() ==> #[trigger] camel_prefix(s, n)[j] == '-' || (
            exists|i: int| 0 <= i < s.len() && s[i] == camel_prefix(s, n)[j]),
    decreases n,
{
    if n > 0 {
        lemma_camel_prefix_chars(s, n - 1);
        let pre = camel_prefix(s, n - 1);
        let cur = camel_prefix(s, n);
        assert forall|j: int| 0 <= j < cur.len() implies #[trigger] cur[j] == '-' || (
        exists|i: int| 0 <= i < s.len() && s[i] == cur[j]) by {
            if j < pre.len() {
                assert(cur[j] == pre[j]);
                if pre[j] != '-' {
                    let w = choose|i: int| 0 <= i < s.len() && s[i] == pre[j];
                    assert(0 <= w < s.len() && s[w] == cur[j]);
                }
            } else if j == cur.len() - 1 {
                assert(cur[j] == s[n - 1]);
            } else {
                assert(cur[j] == '-');
            }
        }
    }
}

/// A split number prefix always ends with the character the original
/// prefix ends with.
proof fn lemma_numbers_prefix_last(s: Seq<char>, n: int)
    requires
        1 <= n <= s.len(),
    ensures
        number_prefix(s, n).len() >= 1,
        number_prefix(s, n).last() == s[n - 1],
    decreases n,
{
    if n > 1 {
        lemma_numbers_prefix_last(s, n - 1);
    }
}

/// The number-boundary splitter emits only dashes and characters of the
/// input.
pub proof fn lemma_numbers_chars(s: Seq<char>)
    ensures
        forall|j: int|
            0 <= j < spec_split_numbers(s).len() ==> #[trigger] spec_split_numbers(s)[j] == '-'
                || (exists|i: int| 0 <= i < s.len() && s[i] == spec_split_numbers(s)[j]),
{
    lemma_numbers_prefix_chars(s, s.len() as int);
}

proof fn lemma_numbers_prefix_chars(s: Seq<char>, n: int)
    requires
        0 <= n <= s.len(),
    ensures
        forall|j: int|
            0 <= j < number_prefix(s, n).len() ==> #[trigger] number_prefix(s, n)[j] == '-' || (
            exists|i: int| 0 <= i < s.len() && s[i] == number_prefix(s, n)[j]),
    decreases n,
{
    if n > 0 {
        lemma_numbers_prefix_chars(s, n - 1);
        let pre = number_prefix(s, n - 1);
        let cur = number_prefix(s, n);
        assert forall|j: int| 0 <= j < cur.len() implies #[trigger] cur[j] == '-' || (
        exists|i: int| 0 <= i < s.len() && s[i] == cur[j]) by {
            if j < pre.len() {
                assert(cur[j] == pre[j]);
                if pre[j] != '-' {
                    let w = choose|i: int| 0 <= i < s.len() && s[i] == pre[j];
                    assert(0 <= w < s.len() && s[w] == cur[j]);
                }
            } else if j == cur.len() - 1 {
                assert(cur[j] == s[n - 1]);
            } else {
                assert(cur[j] == '-');
            }
        }
    }
}

/// After the number-boundary splitter, no letter is adjacent to a digit.
pub proof fn lemma_numbers_establish(s: Seq<char>)
    ensures
        forall|j: int|
            0 <= j && j + 1 < spec_split_numbers(s).len() ==> !((is_alpha(
                #[trigger] spec_split_numbers(s)[j],
            ) && is_digit(spec_split_numbers(s)[j + 1])) || (is_digit(spec_split_numbers(s)[j])
                && is_alpha(spec_split_numbers(s)[j + 1]))),
{
    lemma_numbers_prefix_establish(s, s.len() as int);
}

proof fn lemma_numbers_prefix_establish(s: Seq<char>, n: int)
    requires
        0 <= n <= s.len(),
    ensures
        forall|j: int|
            0 <= j && j + 1 < number_prefix(s, n).len() ==> !((is_alpha(
                #[trigger] number_prefix(s, n)[j],
            ) && is_digit(number_prefix(s, n)[j + 1])) || (is_digit(number_prefix(s, n)[j])
                && is_alpha(number_prefix(s, n)[j + 1]))),
    decreases n,
{
    if n > 0 {
        lemma_numbers_prefix_establish(s, n - 1);
        if n > 1 {
            lemma_numbers_prefix_last(s, n - 1);
        }
        let pre = number_prefix(s, n - 1);
        let cur = number_prefix(s, n);
        assert forall|j: int| 0 <= j && j + 1 < cur.len() implies !((is_alpha(#[trigger] cur[j])
            && is_digit(cur[j + 1])) || (is_digit(cur[j]) && is_alpha(cur[j + 1]))) by {
            if j + 1 < pre.len() {
                assert(cur[j] == pre[j] && cur[j + 1] == pre[j + 1]);
            } else if number_break(s, n - 1) {
                // the contribution is a dash and the character
                if j + 1 == cur.len() - 1 {
                    assert(cur[j] == '-');
                } else if j + 1 == cur.len() - 2 {
                    assert(cur[j + 1] == '-');
                }
            } else {
                // the contribution is the bare character after a
                // non-breaking pair
                if j + 1 == cur.len() - 1 {
                    assert(cur[j] == pre.last() && cur[j + 1] == s[n - 1]);
                }
            }
        }
    }
}

// ---------------------------------------------------------------------------
// Mixed-separator collapsing: structure of the output
// ---------------------------------------------------------------------------

/// The collapsed prefix holds no pair forbidden in the input (for a pair
/// test that never fires beside a separator), holds no two adjacent
/// separators, ends with the input's last character when that is not a
/// separator, ends with a separator only right after a finished run, and
/// holds only dashes and characters of the input.
proof fn lemma_mixed_prefix_shape(s: Seq<char>, p: spec_fn(char, char) -> bool, n: int)
    requires
        0 <= n <= s.len(),
        forall|i: int| 0 <= i && i + 1 < s.len() ==> !p(#[trigger] s[i], s[i + 1]),
        forall|x: char, y: char| is_sep(x) || is_sep(y) ==> !(#[trigger] p(x, y)),
    ensures
        forall|j: int|
            0 <= j && j + 1 < mixed_prefix(s, n).len() ==> !p(
                #[trigger] mixed_prefix(s, n)[j],
                mixed_prefix(s, n)[j + 1],
            ),
        forall|j: int|
            0 <= j && j + 1 < mixed_prefix(s, n).len() ==> !(is_sep(
                #[trigger] mixed_prefix(s, n)[j],
            ) && is_sep(mixed_prefix(s, n)[j + 1])),
        n >= 1 && !is_sep(s[n - 1]) ==> mixed_prefix(s, n).len() > 0 && mixed_prefix(s, n).last()
            == s[n - 1],
        mixed_prefix(s, n).len() > 0 && is_sep(mixed_prefix(s, n).last()) ==> n >= 1 && is_sep(
            s[n - 1],
        ) && (n == s.len() || !is_sep(s[n])),
        forall|j: int|
            0 <= j < mixed_prefix(s, n).len() ==> #[trigger] mixed_prefix(s, n)[j] == '-' || (
            exists|i: int| 0 <= i < s.len() && s[i] == mixed_prefix(s, n)[j]),
    decreases n,
{
    if n > 0 {
        lemma_mixed_prefix_shape(s, p, n - 1);
        let pre = mixed_prefix(s, n - 1);
        let cur = mixed_prefix(s, n);
        if !is_sep(s[n - 1]) {
            assert(cur =~= pre.push(s[n - 1]));
            if pre.len() > 0 && !is_sep(pre.last()) {
                if n >= 2 && is_sep(s[n - 2]) {
                    // the run ending at `n - 2` was emitted there, so `pre`
                    // ends with a separator: contradiction
                    assert(pre =~= mixed_prefix(s, n - 2) + mixed_at(s, n - 2));
                    assert(is_sep(pre.last()));
                    assert(false);
                }
            }
            assert forall|j: int| 0 <= j && j + 1 < cur.len() implies !p(
                #[trigger] cur[j],
                cur[j + 1],
            ) by {
                if j + 1 < pre.len() {
                    assert(cur[j] == pre[j] && cur[j + 1] == pre[j + 1]);
                } else if j + 1 == pre.len() {
                    assert(cur[j] == pre.last() && cur[j + 1] == s[n - 1]);
                }
            }
            assert forall|j: int| 0 <= j && j + 1 < cur.len() implies !(is_sep(#[trigger] cur[j])
                && is_sep(cur[j + 1])) by {
                if j + 1 < pre.len() {
                    assert(cur[j] == pre[j] && cur[j + 1] == pre[j + 1]);
                } else if j + 1 == pre.len() {
                    assert(cur[j + 1] == s[n - 1]);
                }
            }
            assert forall|j: int| 0 <= j < cur.len() implies #[trigger] cur[j] == '-' || (
            exists|i: int| 0 <= i < s.len() && s[i] == cur[j]) by {
                if j < pre.len() {
                    assert(cur[j] == pre[j]);
                    if pre[j] != '-' {
                        let w = choose|i: int| 0 <= i < s.len() && s[i] == pre[j];
                        assert(0 <= w < s.len() && s[w] == cur[j]);
                    }
                } else {
                    assert(cur[j] == s[n - 1]);
                }
            }
        } else if n < s.len() && is_sep(s[n]) {
            assert(cur =~= pre);
        } else {
            let d: char = if run_has_dash(s, n - 1) {
                '-'
            } else {
                '_'
            };
            assert(cur =~= pre.push(d));
            if pre.len() > 0 && is_sep(pre.last()) {
                // a separator at the end of `pre` means the previous run was
                // finished, which `s[n - 1]` being a separator contradicts
                assert(false);
            }
            if d == '_' {
                assert(!run_has_dash(s, n - 1));
                assert(s[n - 1] == '_');
            }
            assert forall|j: int| 0 <= j && j + 1 < cur.len() implies !p(
                #[trigger] cur[j],
                cur[j + 1],
            ) by {
                if j + 1 < pre.len() {
                    assert(cur[j] == pre[j] && cur[j + 1] == pre[j + 1]);
                } else if j + 1 == pre.len() {
                    assert(cur[j + 1] == d);
                }
            }
            assert forall|j: int| 0 <= j && j + 1 < cur.len() implies !(is_sep(#[trigger] cur[j])
                && is_sep(cur[j + 1])) by {
                if j + 1 < pre.len() {
                    assert(cur[j] == pre[j] && cur[j + 1] == pre[j + 1]);
                } else if j + 1 == pre.len() {
                    assert(cur[j] == pre.last() && !is_sep(cur[j]));
                }
            }
            assert forall|j: int| 0 <= j < cur.len() implies #[trigger] cur[j] == '-' || (
            exists|i: int| 0 <= i < s.len() && s[i] == cur[j]) by {
                if j < pre.len() {
                    assert(cur[j] == pre[j]);
                    if pre[j] != '-' {
                        let w = choose|i: int| 0 <= i < s.len() && s[i] == pre[j];
                        assert(0 <= w < s.len() && s[w] == cur[j]);
                    }
                } else {
                    assert(cur[j] == d);
                    if d != '-' {
                        assert(s[n - 1] == cur[j]);
                    }
                }
            }
        }
    }
}

/// Mixed-separator collapsing never introduces a pair that the input did
/// not hold, for any pair test that never fires beside a separator.
pub proof fn lemma_mixed_pairs(s: Seq<char>, p: spec_fn(char, char) -> bool)
    requires
        forall|i: int| 0 <= i && i + 1 < s.len() ==> !p(#[trigger] s[i], s[i + 1]),
        forall|x: char, y: char| is_sep(x) || is_sep(y) ==> !(#[trigger] p(x, y)),
    ensures
        forall|j: int|
            0 <= j && j + 1 < spec_collapse_mixed_separators(s).len() ==> !p(
                #[trigger] spec_collapse_mixed_separators(s)[j],
                spec_collapse_mixed_separators(s)[j + 1],
            ),
{
    lemma_mixed_prefix_shape(s, p, s.len() as int);
}

/// After mixed-separator collapsing, no two separators are adjacent.
pub proof fn lemma_mixed_establish(s: Seq<char>)
    ensures
        forall|j: int|
            0 <= j && j + 1 < spec_collapse_mixed_separators(s).len() ==> !(is_sep(
                #[trigger] spec_collapse_mixed_separators(s)[j],
            ) && is_sep(spec_collapse_mixed_separators(s)[j + 1])),
{
    lemma_mixed_prefix_shape(s, |x: char, y: char| false, s.len() as int);
}

/// Mixed-separator collapsing emits only dashes and characters of the
/// input.
pub proof fn lemma_mixed_chars(s: Seq<char>)
    ensures
        forall|j: int|
            0 <= j < spec_collapse_mixed_separators(s).len() ==> #[trigger]
            spec_collapse_mixed_separators(s)[j] == '-' || (exists|i: int|
                0 <= i < s.len() && s[i] == spec_collapse_mixed_separators(s)[j]),
{
    lemma_mixed_prefix_shape(s, |x: char, y: char| false, s.len() as int);
}

/// Trimming a name that does not end in `c` changes nothing.
pub proof fn lemma_trim_noop(s: Seq<char>, c: char)
    requires
        s.len() == 0 || s.last() != c,
    ensures
        spec_trim_trailing(s, c) == s,
{
}

/// The trimmed name is a prefix of the input.
pub proof fn lemma_trim_prefix(s: Seq<char>, c: char)
    ensures
        spec_trim_trailing(s, c).len() <= s.len(),
        forall|j: int|
            0 <= j < spec_trim_trailing(s, c).len() ==> #[trigger] spec_trim_trailing(s, c)[j]
                == s[j],
    decreases s.len(),
{
    if s.len() > 0 && s.last() == c {
        lemma_trim_prefix(s.drop_last(), c);
        assert forall|j: int| 0 <= j < spec_trim_trailing(s, c).len() implies #[trigger]
            spec_trim_trailing(s, c)[j] == s[j] by {
            assert(spec_trim_trailing(s, c)[j] == s.drop_last()[j]);
        }
    }
}

// ---------------------------------------------------------------------------
// Canonical names
// ---------------------------------------------------------------------------

/// The shape of a fully rewritten base name: no uppercase letter, no
/// replaced punctuation, no bracket, no underscore when `force_dash` is
/// set, no two adjacent separators, no doubled dot, and no letter next to
/// a digit.  Every rewrite stage leaves such a name unchanged.
pub open spec fn canonical(t: Seq<char>, force_dash: bool) -> bool {
    &&& forall|i: int|
        0 <= i < t.len() ==> !is_upper(#[trigger] t[i]) && !is_dash_punct(t[i]) && !is_bracket(
            t[i],
        ) && (force_dash ==> t[i] != '_')
    &&& forall|i: int|
        0 <= i && i + 1 < t.len() ==> !(is_sep(#[trigger] t[i]) && is_sep(t[i + 1]))
    &&& forall|i: int| 0 <= i && i + 1 < t.len() ==> !(#[trigger] t[i] == '.' && t[i + 1] == '.')
    &&& forall|i: int|
        0 <= i && i + 1 < t.len() ==> !((is_alpha(#[trigger] t[i]) && is_digit(t[i + 1])) || (
        is_digit(t[i]) && is_alpha(t[i + 1])))
}

/// The rewrite stages leave a canonical name unchanged, when the trailing
/// trim is gated the way the orchestrator gates it.
pub proof fn lemma_stages_noop_on_canonical(t: Seq<char>, force_dash: bool, keep_trailing: bool)
    requires
        canonical(t, force_dash),
        keep_trailing == (t.len() > 0 && is_sep(t.last())),
    ensures
        crate::rewrite::spec_rewrite_stages(t, force_dash, keep_trailing) == t,
{
    lemma_camel_noop(t);
    lemma_numbers_noop(t);
    lemma_brackets_noop(t);
    lemma_punct_noop(t);
    if force_dash {
        lemma_underscores_noop(t);
    }
    lemma_mixed_noop(t);
    assert forall|i: int| 0 <= i && i + 1 < t.len() implies !(#[trigger] t[i] == '-' && t[i + 1]
        == '-') by {
        assert(!(is_sep(t[i]) && is_sep(t[i + 1])));
    }
    lemma_runs_noop(t, '-');
    assert forall|i: int| 0 <= i && i + 1 < t.len() implies !(#[trigger] t[i] == '_' && t[i + 1]
        == '_') by {
        assert(!(is_sep(t[i]) && is_sep(t[i + 1])));
    }
    lemma_runs_noop(t, '_');
    lemma_runs_noop(t, '.');
    if !keep_trailing {
        lemma_trim_noop(t, '-');
        lemma_trim_noop(t, '_');
    }
}

/// On a name without brackets, the rewrite stages followed by case
/// folding always produce a canonical name.
pub proof fn lemma_stages_lower_canonical(work: Seq<char>, force_dash: bool, keep_trailing: bool)
    requires
        forall|i: int| 0 <= i < work.len() ==> !is_bracket(#[trigger] work[i]),
    ensures
        canonical(
            spec_to_lowercase(crate::rewrite::spec_rewrite_stages(work, force_dash, keep_trailing)),
            force_dash,
        ),
{
    let p_adj = |x: char, y: char| (is_alpha(x) && is_digit(y)) || (is_digit(x) && is_alpha(y));
    let p_sep = |x: char, y: char| is_sep(x) && is_sep(y);
    let t1 = spec_split_camel_case(work);
    let t2 = spec_split_numbers(t1);
    let t3 = spec_remove_brackets(t2);
    let t4 = spec_punct_to_dash(t3);
    let t5 = if force_dash {
        spec_underscores_to_dashes(t4)
    } else {
        t4
    };
    let t6 = spec_collapse_mixed_separators(t5);
    let t7 = spec_collapse_runs(t6, '-');
    let t8 = if !force_dash {
        spec_collapse_runs(t7, '_')
    } else {
        t7
    };
    let t9 = spec_collapse_runs(t8, '.');
    let t10 = if !keep_trailing {
        spec_trim_trailing(spec_trim_trailing(t9, '-'), '_')
    } else {
        t9
    };
    let low = spec_to_lowercase(t10);

    // t1: still bracket-free
    lemma_camel_chars(work);
    assert forall|j: int| 0 <= j < t1.len() implies !is_bracket(#[trigger] t1[j]) by {
        if t1[j] != '-' {
            let w = choose|i: int| 0 <= i < work.len() && work[i] == t1[j];
            assert(!is_bracket(work[w]));
        }
    }
    // t2: bracket-free, and no letter/digit adjacency
    lemma_numbers_chars(t1);
    assert forall|j: int| 0 <= j < t2.len() implies !is_bracket(#[trigger] t2[j]) by {
        if t2[j] != '-' {
            let w = choose|i: int| 0 <= i < t1.len() && t1[i] == t2[j];
            assert(!is_bracket(t1[w]));
        }
    }
    lemma_numbers_establish(t1);
    // t3 == t2
    lemma_brackets_noop(t2);
    assert(t3 == t2);
    // t4: punctuation-free, bracket-free, adjacency kept out
    assert forall|j: int| 0 <= j < t4.len() implies !is_dash_punct(#[trigger] t4[j])
        && !is_bracket(t4[j]) && is_alpha(t4[j]) == is_alpha(t3[j]) && is_digit(t4[j])
        == is_digit(t3[j]) by {
        assert(t4[j] == (if is_dash_punct(t3[j]) {
            '-'
        } else {
            t3[j]
        }));
    }
    assert forall|j: int| 0 <= j && j + 1 < t4.len() implies !p_adj(#[trigger] t4[j], t4[j + 1]) by {
        assert(!((is_alpha(t3[j]) && is_digit(t3[j + 1])) || (is_digit(t3[j]) && is_alpha(
            t3[j + 1],
        ))));
    }
    // t5: underscore-free when forced; everything else kept
    assert forall|j: int| 0 <= j < t5.len() implies !is_dash_punct(#[trigger] t5[j])
        && !is_bracket(t5[j]) && (force_dash ==> t5[j] != '_') && is_alpha(t5[j]) == is_alpha(
        t4[j],
    ) && is_digit(t5[j]) == is_digit(t4[j]) by {
        if force_dash {
            assert(t5[j] == (if t4[j] == '_' {
                '-'
            } else {
                t4[j]
            }));
        }
    }
    assert forall|j: int| 0 <= j && j + 1 < t5.len() implies !p_adj(#[trigger] t5[j], t5[j + 1]) by {
        assert(!p_adj(t4[j], t4[j + 1]));
    }
    // t6: no two adjacent separators; everything else kept
    lemma_mixed_establish(t5);
    assert(forall|x: char, y: char| is_sep(x) || is_sep(y) ==> !(#[trigger] p_adj(x, y)));
    lemma_mixed_pairs(t5, p_adj);
    lemma_mixed_chars(t5);
    assert forall|j: int| 0 <= j < t6.len() implies !is_dash_punct(#[trigger] t6[j])
        && !is_bracket(t6[j]) && (force_dash ==> t6[j] != '_') by {
        if t6[j] != '-' {
            let w = choose|i: int| 0 <= i < t5.len() && t5[i] == t6[j];
            assert(!is_dash_punct(t5[w]) && !is_bracket(t5[w]));
        }
    }
    // t7, t8, t9: runs of dashes, underscores and dots collapsed
    lemma_runs_pairs(t6, '-', p_sep);
    lemma_runs_pairs(t6, '-', p_adj);
    lemma_runs_chars(t6, '-');
    assert forall|j: int| 0 <= j < t7.len() implies !is_dash_punct(#[trigger] t7[j])
        && !is_bracket(t7[j]) && (force_dash ==> t7[j] != '_') by {
        let w = choose|i: int| 0 <= i < t6.len() && t6[i] == t7[j];
        assert(!is_dash_punct(t6[w]));
    }
    if !force_dash {
        lemma_runs_pairs(t7, '_', p_sep);
        lemma_runs_pairs(t7, '_', p_adj);
        lemma_runs_chars(t7, '_');
    }
    assert forall|j: int| 0 <= j && j + 1 < t8.len() implies !p_sep(#[trigger] t8[j], t8[j + 1])
        && !p_adj(t8[j], t8[j + 1]) by {
        if !force_dash {
            assert(!p_sep(t8[j], t8[j + 1]) && !p_adj(t8[j], t8[j + 1]));
        }
    }
    assert forall|j: int| 0 <= j < t8.len() implies !is_dash_punct(#[trigger] t8[j])
        && !is_bracket(t8[j]) && (force_dash ==> t8[j] != '_') by {
        if !force_dash {
            let w = choose|i: int| 0 <= i < t7.len() && t7[i] == t8[j];
            assert(!is_dash_punct(t7[w]));
        }
    }
    lemma_runs_establish(t8, '.');
    lemma_runs_pairs(t8, '.', p_sep);
    lemma_runs_pairs(t8, '.', p_adj);
    lemma_runs_chars(t8, '.');
    assert forall|j: int| 0 <= j < t9.len() implies !is_dash_punct(#[trigger] t9[j])
        && !is_bracket(t9[j]) && (force_dash ==> t9[j] != '_') by {
        let w = choose|i: int| 0 <= i < t8.len() && t8[i] == t9[j];
        assert(!is_dash_punct(t8[w]));
    }
    // t10: a prefix of t9, so every property carries over
    lemma_trim_prefix(t9, '-');
    lemma_trim_prefix(spec_trim_trailing(t9, '-'), '_');
    assert forall|j: int| 0 <= j < t10.len() implies #[trigger] t10[j] == t9[j] by {
        if !keep_trailing {
            assert(t10[j] == spec_trim_trailing(t9, '-')[j]);
        }
    }
    assert(t10.len() <= t9.len());
    // low: case folding establishes the uppercase clause and keeps the rest
    assert forall|j: int| 0 <= j < low.len() implies !is_upper(#[trigger] low[j]) && !is_dash_punct(
        low[j],
    ) && !is_bracket(low[j]) && (force_dash ==> low[j] != '_') by {
        assert(low[j] == to_lower(t10[j]));
        lemma_to_lower_classes(t10[j]);
    }
    assert forall|j: int| 0 <= j && j + 1 < low.len() implies !(is_sep(#[trigger] low[j]) && is_sep(
        low[j + 1],
    )) && !(low[j] == '.' && low[j + 1] == '.') && !((is_alpha(low[j]) && is_digit(low[j + 1]))
        || (is_digit(low[j]) && is_alpha(low[j + 1]))) by {
        assert(low[j] == to_lower(t10[j]) && low[j + 1] == to_lower(t10[j + 1]));
        lemma_to_lower_classes(t10[j]);
        lemma_to_lower_classes(t10[j + 1]);
        assert(t10[j] == t9[j] && t10[j + 1] == t9[j + 1]);
        assert(!p_sep(t9[j], t9[j + 1]) && !p_adj(t9[j], t9[j + 1]));
        assert(!(t9[j] == '.' && t9[j + 1] == '.'));
    }
}

/// A canonical base name, with or without a leading hidden-file dot,
/// satisfies the classifier's already-clean rule: the engine's own output
/// is exempt whenever it carries no extension.
pub proof fn lemma_canonical_already_clean(r: Seq<char>, force_dash: bool)
    requires
        (r.len() > 0 && r[0] == '.') ==> canonical(r.skip(1), force_dash),
        !(r.len() > 0 && r[0] == '.') ==> canonical(r, force_dash),
    ensures
        crate::classify::spec_already_clean(r, force_dash),
{
    if r.len() > 0 && r[0] == '.' {
        let t = r.skip(1);
        assert forall|j: int| 1 <= j < r.len() implies #[trigger] r[j] == t[j - 1] by {}
        assert(!(exists|i: int| 0 <= i < r.len() && is_upper(r[i]))) by {
            if exists|i: int| 0 <= i < r.len() && is_upper(r[i]) {
                let w = choose|i: int| 0 <= i < r.len() && is_upper(r[i]);
                assert(w >= 1 && is_upper(t[w - 1]));
            }
        }
        assert(!(force_dash && exists|i: int| 0 <= i < r.len() && r[i] == '_')) by {
            if force_dash && exists|i: int| 0 <= i < r.len() && r[i] == '_' {
                let w = choose|i: int| 0 <= i < r.len() && r[i] == '_';
                assert(w >= 1 && t[w - 1] == '_');
            }
        }
        assert forall|i: int|
            0 <= i && i + 1 < r.len() implies !(is_sep(#[trigger] r[i]) && is_sep(r[i + 1]))
            && !is_blacklisted(r[i]) && !((is_alpha(r[i]) && is_digit(r[i + 1])) || (is_digit(
            r[i],
        ) && is_alpha(r[i + 1]))) by {
            if i >= 1 {
                assert(r[i] == t[i - 1] && r[i + 1] == t[i]);
            } else {
                assert(r[0] == '.' && r[1] == t[0]);
            }
        }
        assert forall|i: int| 0 <= i < r.len() implies !is_blacklisted(#[trigger] r[i]) by {
            if i >= 1 {
                assert(r[i] == t[i - 1]);
            }
        }
        assert forall|i: int|
            (0 <= i && i + 1 < r.len() && #[trigger] r[i] == '.' && r[i + 1] == '.') implies (
        forall|j: int| 0 <= j <= i ==> #[trigger] r[j] == '.') by {
            if i >= 1 {
                assert(t[i - 1] == '.' && t[i] == '.');
                assert(false);
            }
        }
        assert(first_dot_from(r, 0) == 0);
        assert(!crate::classify::has_letter_digit_range(r, 0, 0));
    } else {
        crate::classify::lemma_first_dot_bounds(r, 0);
        let b = first_dot_from(r, 0);
        assert(!crate::classify::has_letter_digit_range(r, 0, b)) by {
            if crate::classify::has_letter_digit_range(r, 0, b) {
                let w = choose|i: int|
                    0 < i < b && ((is_alpha(r[i - 1]) && is_digit(#[trigger] r[i])) || (is_digit(
                        r[i - 1],
                    ) && is_alpha(r[i])));
                assert(0 <= w - 1 && w < r.len());
                assert(false);
            }
        }
    }
}

} // verus!
