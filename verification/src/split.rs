//! The splitter: separates a filename into a base name and an extension,
//! with special handling for hidden files (names beginning with a dot).

use vstd::prelude::*;

verus! {

/// The largest index of `c` in `s` at or after `from`, or -1 when there is
/// none.
pub open spec fn last_index_from(s: Seq<char>, c: char, from: int) -> int
    decreases s.len(),
{
    if s.len() == 0 {
        -1
    } else if from <= s.len() - 1 && s.last() == c {
        s.len() - 1
    } else {
        last_index_from(s.drop_last(), c, from)
    }
}

/// Where the last occurrence sits: at the result when there is one, with
/// none after it; nowhere in range when the result is -1.
pub proof fn lemma_last_index_from(s: Seq<char>, c: char, from: int)
    requires
        0 <= from,
    ensures
        last_index_from(s, c, from) == -1 || last_index_from(s, c, from) >= from,
        last_index_from(s, c, from) == -1 ==> forall|j: int|
            from <= j < s.len() ==> s[j] != c,
        last_index_from(s, c, from) >= 0 ==> from <= last_index_from(s, c, from) < s.len()
            && s[last_index_from(s, c, from)] == c && forall|j: int|
            last_index_from(s, c, from) < j < s.len() ==> s[j] != c,
    decreases s.len(),
{
    if s.len() > 0 {
        if from <= s.len() - 1 && s.last() == c {
        } else {
            lemma_last_index_from(s.drop_last(), c, from);
            assert forall|j: int| from <= j < s.len() - 1 implies s.drop_last()[j] == s[j] by {}
        }
    }
}

/// What the splitter returns: the last dot at index 1 or later separates
/// name from extension; a filename with no such dot is all name, with an
/// empty extension.  A leading dot (a hidden file) can never start the
/// extension, and for a hidden file this rule finds the last dot of the
/// remainder, so the one contract covers both shapes.
pub open spec fn spec_split_name_and_extension(s: Seq<char>) -> (Seq<char>, Seq<char>) {
    let p = last_index_from(s, '.', 1);
    if p >= 1 {
        (s.take(p), s.skip(p + 1))
    } else {
        (s, Seq::empty())
    }
}

/// Splits a filename into its base name and extension.
pub fn split_name_and_extension(s: &Vec<char>) -> (res: (Vec<char>, Vec<char>))
    ensures
        (res.0@, res.1@) == spec_split_name_and_extension(s@),
{
    let n: usize = s.len();
    // Find the last dot at index 1 or later.
    let mut found: bool = false;
    let mut p: usize = 0;
    let mut i: usize = n;
    while i > 1 && !found
        invariant
            i <= n == s@.len(),
            !found ==> forall|j: int| i as int <= j < n ==> s@[j] != '.',
            found ==> i >= 1,
            found ==> 1 <= p && (p as int) < n,
            found ==> s@[p as int] == '.',
            found ==> forall|j: int| (p as int) < j < n ==> s@[j] != '.',
        decreases i,
    {
        if s[i - 1] == '.' {
            found = true;
            p = i - 1;
        }
        i = i - 1;
    }
    proof {
        lemma_last_index_from(s@, '.', 1);
        if found {
            assert(last_index_from(s@, '.', 1) == p as int);
        } else {
            assert(last_index_from(s@, '.', 1) < 1);
        }
    }
    if !found {
        let mut name: Vec<char> = Vec::new();
        let mut k: usize = 0;
        while k < n
            invariant
                k <= n == s@.len(),
                name@ == s@.take(k as int),
            decreases n - k,
        {
            proof {
                assert(s@.take(k + 1) =~= s@.take(k as int).push(s@[k as int]));
            }
            name.push(s[k]);
            k = k + 1;
        }
        proof {
            assert(s@.take(n as int) =~= s@);
        }
        (name, Vec::new())
    } else {
        let mut name: Vec<char> = Vec::new();
        let mut k: usize = 0;
        while k < p
            invariant
                k <= p < n == s@.len(),
                name@ == s@.take(k as int),
            decreases p - k,
        {
            proof {
                assert(s@.take(k + 1) =~= s@.take(k as int).push(s@[k as int]));
            }
            name.push(s[k]);
            k = k + 1;
        }
        let mut ext: Vec<char> = Vec::new();
        let mut k2: usize = p + 1;
        while k2 < n
            invariant
                p as int + 1 <= k2 as int <= n == s@.len(),
                ext@ == s@.subrange(p as int + 1, k2 as int),
            decreases n - k2,
        {
            proof {
                assert(s@.subrange(p as int + 1, k2 + 1) =~= s@.subrange(
                    p as int + 1,
                    k2 as int,
                ).push(s@[k2 as int]));
            }
            ext.push(s[k2]);
            k2 = k2 + 1;
        }
        (name, ext)
    }
}

} // verus!
