//! The rewrite pipeline: independent string-to-string stages (camel-case
//! splitting, number-boundary splitting, punctuation normalization,
//! separator collapsing, case folding) and the orchestrator that runs them
//! in a fixed order on the base name of a filename.

use vstd::prelude::*;

use crate::chars::{is_lower, is_upper, is_digit, is_alpha, is_sep, is_bracket, is_dash_punct,
    to_lower, lower_char, is_lower_char, is_upper_char, is_digit_char, is_alpha_char,
    is_sep_char, is_bracket_char, is_dash_punct_char};

verus! {

// ---------------------------------------------------------------------------
// Camel-case splitting
// ---------------------------------------------------------------------------

/// A dash is inserted before position `i` when a lowercase-to-uppercase
/// transition follows at least two consecutive lowercase characters, or when
/// an uppercase pair is followed by a lowercase character (the end of an
/// acronym, as in `XMLParser`).
pub open spec fn camel_break(s: Seq<char>, i: int) -> bool {
    &&& 1 <= i < s.len()
    &&& {
        ||| (is_lower(s[i - 1]) && is_upper(s[i]) && i >= 2 && is_lower(s[i - 2]))
        ||| (is_upper(s[i - 1]) && is_upper(s[i]) && i + 1 < s.len() && is_lower(s[i + 1]))
    }
}

pub open spec fn camel_at(s: Seq<char>, i: int) -> Seq<char> {
    if camel_break(s, i) {
        seq!['-', s[i]]
    } else {
        seq![s[i]]
    }
}

pub open spec fn camel_prefix(s: Seq<char>, n: int) -> Seq<char>
    decreases n,
{
    if n <= 0 {
        Seq::empty()
    } else {
        camel_prefix(s, n - 1) + camel_at(s, n - 1)
    }
}

/// What the camel-case splitter returns.
pub open spec fn spec_split_camel_case(s: Seq<char>) -> Seq<char> {
    camel_prefix(s, s.len() as int)
}

/// Splits camelCase and PascalCase words with dashes.
pub fn split_camel_case(s: &Vec<char>) -> (res: Vec<char>)
    ensures
        res@ == spec_split_camel_case(s@),
{
    let mut out: Vec<char> = Vec::new();
    let n: usize = s.len();
    let mut i: usize = 0;
    while i < n
        invariant
            n == s@.len(),
            i <= n,
            out@ == camel_prefix(s@, i as int),
        decreases n - i,
    {
        let c = s[i];
        if i >= 1 {
            let prev = s[i - 1];
            if is_lower_char(prev) && is_upper_char(c) && i >= 2 && is_lower_char(s[i - 2]) {
                out.push('-');
            } else if is_upper_char(prev) && is_upper_char(c) && i + 1 < n
                && is_lower_char(s[i + 1]) {
                out.push('-');
            }
        }
        out.push(c);
        i = i + 1;
    }
    out
}

// ---------------------------------------------------------------------------
// Number-boundary splitting
// ---------------------------------------------------------------------------

/// A dash is inserted between a letter and a digit, in either order.
pub open spec fn number_break(s: Seq<char>, i: int) -> bool {
    &&& 1 <= i < s.len()
    &&& {
        ||| (is_alpha(s[i - 1]) && is_digit(s[i]))
        ||| (is_digit(s[i - 1]) && is_alpha(s[i]))
    }
}

pub open spec fn number_at(s: Seq<char>, i: int) -> Seq<char> {
    if number_break(s, i) {
        seq!['-', s[i]]
    } else {
        seq![s[i]]
    }
}

pub open spec fn number_prefix(s: Seq<char>, n: int) -> Seq<char>
    decreases n,
{
    if n <= 0 {
        Seq::empty()
    } else {
        number_prefix(s, n - 1) + number_at(s, n - 1)
    }
}

/// What the number-boundary splitter returns.
pub open spec fn spec_split_numbers(s: Seq<char>) -> Seq<char> {
    number_prefix(s, s.len() as int)
}

/// Separates digit runs from letter runs with dashes.
pub fn split_numbers(s: &Vec<char>) -> (res: Vec<char>)
    ensures
        res@ == spec_split_numbers(s@),
{
    let mut out: Vec<char> = Vec::new();
    let n: usize = s.len();
    let mut i: usize = 0;
    while i < n
        invariant
            n == s@.len(),
            i <= n,
            out@ == number_prefix(s@, i as int),
        decreases n - i,
    {
        let c = s[i];
        if i >= 1 {
            let prev = s[i - 1];
            if (is_alpha_char(prev) && is_digit_char(c))
                || (is_digit_char(prev) && is_alpha_char(c)) {
                out.push('-');
            }
        }
        out.push(c);
        i = i + 1;
    }
    out
}

// ---------------------------------------------------------------------------
// Bracket removal and punctuation replacement
// ---------------------------------------------------------------------------

/// What bracket removal returns: the input without `[` `]` `{` `}`.
pub open spec fn spec_remove_brackets(s: Seq<char>) -> Seq<char>
    decreases s.len(),
{
    if s.len() == 0 {
        Seq::empty()
    } else if is_bracket(s.last()) {
        spec_remove_brackets(s.drop_last())
    } else {
        spec_remove_brackets(s.drop_last()).push(s.last())
    }
}

/// Drops square and curly brackets outright.
pub fn remove_brackets(s: &Vec<char>) -> (res: Vec<char>)
    ensures
        res@ == spec_remove_brackets(s@),
{
    let mut out: Vec<char> = Vec::new();
    let n: usize = s.len();
    let mut i: usize = 0;
    while i < n
        invariant
            n == s@.len(),
            i <= n,
            out@ == spec_remove_brackets(s@.take(i as int)),
        decreases n - i,
    {
        proof {
            assert(s@.take(i + 1).drop_last() =~= s@.take(i as int));
            assert(s@.take(i + 1).last() == s@[i as int]);
        }
        let c = s[i];
        if !is_bracket_char(c) {
            out.push(c);
        }
        i = i + 1;
    }
    proof {
        assert(s@.take(n as int) =~= s@);
    }
    out
}

/// What punctuation replacement returns: each blacklisted punctuation
/// character becomes a dash, everything else is kept.
pub open spec fn spec_punct_to_dash(s: Seq<char>) -> Seq<char> {
    s.map_values(|c: char| if is_dash_punct(c) { '-' } else { c })
}

/// Replaces spaces, plus signs and the other unwanted punctuation with dashes.
pub fn punct_to_dash(s: &Vec<char>) -> (res: Vec<char>)
    ensures
        res@ == spec_punct_to_dash(s@),
{
    let mut out: Vec<char> = Vec::new();
    let n: usize = s.len();
    let mut i: usize = 0;
    while i < n
        invariant
            n == s@.len(),
            i <= n,
            out@.len() == i,
            forall|j: int|
                0 <= j < i ==> out@[j] == (if is_dash_punct(s@[j]) {
                    '-'
                } else {
                    s@[j]
                }),
        decreases n - i,
    {
        let c = s[i];
        if is_dash_punct_char(c) {
            out.push('-');
        } else {
            out.push(c);
        }
        i = i + 1;
    }
    proof {
        assert(out@ =~= spec_punct_to_dash(s@));
    }
    out
}

/// What the `force_dash` substitution returns: every underscore becomes a
/// dash.
pub open spec fn spec_underscores_to_dashes(s: Seq<char>) -> Seq<char> {
    s.map_values(|c: char| if c == '_' { '-' } else { c })
}

/// Replaces every underscore with a dash (the `force_dash` option).
pub fn underscores_to_dashes(s: &Vec<char>) -> (res: Vec<char>)
    ensures
        res@ == spec_underscores_to_dashes(s@),
{
    let mut out: Vec<char> = Vec::new();
    let n: usize = s.len();
    let mut i: usize = 0;
    while i < n
        invariant
            n == s@.len(),
            i <= n,
            out@.len() == i,
            forall|j: int| 0 <= j < i ==> out@[j] == (if s@[j] == '_' { '-' } else { s@[j] }),
        decreases n - i,
    {
        let c = s[i];
        if c == '_' {
            out.push('-');
        } else {
            out.push(c);
        }
        i = i + 1;
    }
    proof {
        assert(out@ =~= spec_underscores_to_dashes(s@));
    }
    out
}

// ---------------------------------------------------------------------------
// Separator collapsing
// ---------------------------------------------------------------------------

/// Whether the separator run that ends at position `i` (reading backward)
/// contains a dash.
pub open spec fn run_has_dash(s: Seq<char>, i: int) -> bool
    decreases i + 1,
{
    if 0 <= i < s.len() && is_sep(s[i]) {
        s[i] == '-' || run_has_dash(s, i - 1)
    } else {
        false
    }
}

/// The contribution of position `i` to the mixed-separator collapse: a run
/// of dashes and underscores is emitted once, at its last position, as a
/// dash when the run contains one and as an underscore otherwise.
pub open spec fn mixed_at(s: Seq<char>, i: int) -> Seq<char> {
    if is_sep(s[i]) {
        if i + 1 < s.len() && is_sep(s[i + 1]) {
            Seq::empty()
        } else if run_has_dash(s, i) {
            seq!['-']
        } else {
            seq!['_']
        }
    } else {
        seq![s[i]]
    }
}

pub open spec fn mixed_prefix(s: Seq<char>, n: int) -> Seq<char>
    decreases n,
{
    if n <= 0 {
        Seq::empty()
    } else {
        mixed_prefix(s, n - 1) + mixed_at(s, n - 1)
    }
}

/// What the mixed-separator collapse returns.
pub open spec fn spec_collapse_mixed_separators(s: Seq<char>) -> Seq<char> {
    mixed_prefix(s, s.len() as int)
}

/// Collapses each maximal run of dashes and underscores to a single dash
/// when the run contains a dash, and to a single underscore otherwise.
pub fn collapse_mixed_separators(s: &Vec<char>) -> (res: Vec<char>)
    ensures
        res@ == spec_collapse_mixed_separators(s@),
{
    let mut out: Vec<char> = Vec::new();
    let n: usize = s.len();
    let mut i: usize = 0;
    let mut has_dash: bool = false;
    while i < n
        invariant
            n == s@.len(),
            i <= n,
            out@ == mixed_prefix(s@, i as int),
            has_dash == run_has_dash(s@, i as int - 1),
        decreases n - i,
    {
        let c = s[i];
        if is_sep_char(c) {
            let run_dash = has_dash || c == '-';
            if i + 1 < n && is_sep_char(s[i + 1]) {
                // the run continues: emit nothing yet
            } else if run_dash {
                out.push('-');
            } else {
                out.push('_');
            }
            has_dash = run_dash;
        } else {
            out.push(c);
            has_dash = false;
        }
        i = i + 1;
    }
    out
}

/// The contribution of position `i` to collapsing runs of `c`: only the
/// first character of each run is kept.
pub open spec fn runs_at(s: Seq<char>, c: char, i: int) -> Seq<char> {
    if s[i] == c && i >= 1 && s[i - 1] == c {
        Seq::empty()
    } else {
        seq![s[i]]
    }
}

pub open spec fn runs_prefix(s: Seq<char>, c: char, n: int) -> Seq<char>
    decreases n,
{
    if n <= 0 {
        Seq::empty()
    } else {
        runs_prefix(s, c, n - 1) + runs_at(s, c, n - 1)
    }
}

/// What run collapsing returns: every run of two or more `c` characters
/// becomes a single `c`.
pub open spec fn spec_collapse_runs(s: Seq<char>, c: char) -> Seq<char> {
    runs_prefix(s, c, s.len() as int)
}

/// Collapses every run of the given character to a single occurrence.
pub fn collapse_runs(s: &Vec<char>, c: char) -> (res: Vec<char>)
    ensures
        res@ == spec_collapse_runs(s@, c),
{
    let mut out: Vec<char> = Vec::new();
    let n: usize = s.len();
    let mut i: usize = 0;
    while i < n
        invariant
            n == s@.len(),
            i <= n,
            out@ == runs_prefix(s@, c, i as int),
        decreases n - i,
    {
        let cur = s[i];
        if !(cur == c && i >= 1 && s[i - 1] == c) {
            out.push(cur);
        }
        i = i + 1;
    }
    out
}

// ---------------------------------------------------------------------------
// Trailing-separator trimming and case folding
// ---------------------------------------------------------------------------

/// What trailing trimming returns: the input without its trailing run of
/// `c` characters.
pub open spec fn spec_trim_trailing(s: Seq<char>, c: char) -> Seq<char>
    decreases s.len(),
{
    if s.len() > 0 && s.last() == c {
        spec_trim_trailing(s.drop_last(), c)
    } else {
        s
    }
}

/// Removes every trailing occurrence of the given character.
pub fn trim_trailing(s: Vec<char>, c: char) -> (res: Vec<char>)
    ensures
        res@ == spec_trim_trailing(s@, c),
{
    let mut out = s;
    while out.len() > 0 && out[out.len() - 1] == c
        invariant
            spec_trim_trailing(out@, c) == spec_trim_trailing(s@, c),
        decreases out@.len(),
    {
        proof {
            assert(out@.drop_last() =~= out@.subrange(0, out@.len() - 1));
        }
        out.pop();
    }
    out
}

/// What case folding returns: every uppercase ASCII letter lowercased.
pub open spec fn spec_to_lowercase(s: Seq<char>) -> Seq<char> {
    s.map_values(|c: char| to_lower(c))
}

/// Lowercases every ASCII letter.
pub fn to_lowercase(s: &Vec<char>) -> (res: Vec<char>)
    ensures
        res@ == spec_to_lowercase(s@),
{
    let mut out: Vec<char> = Vec::new();
    let n: usize = s.len();
    let mut i: usize = 0;
    while i < n
        invariant
            n == s@.len(),
            i <= n,
            out@.len() == i,
            forall|j: int| 0 <= j < i ==> out@[j] == to_lower(s@[j]),
        decreases n - i,
    {
        out.push(lower_char(s[i]));
        i = i + 1;
    }
    proof {
        assert(out@ =~= spec_to_lowercase(s@));
    }
    out
}

// ---------------------------------------------------------------------------
// The orchestrator
// ---------------------------------------------------------------------------

/// The rewrite stages in their fixed order, short of the final case fold:
/// camel-case splitting, number-boundary splitting, bracket removal,
/// punctuation replacement, the `force_dash` substitution, separator and
/// dot collapsing, and the trailing trim (which is skipped when the name
/// already ended in a separator).
pub open spec fn spec_rewrite_stages(
    work: Seq<char>,
    force_dash: bool,
    keep_trailing: bool,
) -> Seq<char> {
    let t1 = spec_split_camel_case(work);
    let t2 = spec_split_numbers(t1);
    let t3 = spec_remove_brackets(t2);
    let t4 = spec_punct_to_dash(t3);
    let t5 = if force_dash {
        spec_underscores_to_dashes(t4)
    } else {
        t4
    };
    let t6 = spec_collapse_mixed_separators(t5);
    let t7 = spec_collapse_runs(t6, '-');
    let t8 = if !force_dash {
        spec_collapse_runs(t7, '_')
    } else {
        t7
    };
    let t9 = spec_collapse_runs(t8, '.');
    if !keep_trailing {
        spec_trim_trailing(spec_trim_trailing(t9, '-'), '_')
    } else {
        t9
    }
}

/// What processing a base name returns: a leading hidden-file dot is set
/// aside, the rewrite stages run in their fixed order, trailing separators
/// are trimmed unless the incoming name already ended in one, the result is
/// lowercased, and the hidden-file dot is reattached.
pub open spec fn spec_process_name(name: Seq<char>, force_dash: bool) -> Seq<char> {
    let hidden = name.len() > 0 && name[0] == '.';
    let work = if hidden {
        name.skip(1)
    } else {
        name
    };
    let keep_trailing = work.len() > 0 && is_sep(work.last());
    let folded = spec_to_lowercase(spec_rewrite_stages(work, force_dash, keep_trailing));
    if hidden {
        seq!['.'] + folded
    } else {
        folded
    }
}

/// Runs the rewrite stages over the base name of a filename.
pub fn process_name(name: &Vec<char>, force_dash: bool) -> (res: Vec<char>)
    ensures
        res@ == spec_process_name(name@, force_dash),
{
    let hidden = name.len() > 0 && name[0] == '.';
    let mut work: Vec<char> = Vec::new();
    let mut i: usize = if hidden {
        1
    } else {
        0
    };
    let ghost start = i as int;
    while i < name.len()
        invariant
            0 <= start <= i as int <= name@.len(),
            work@ == name@.subrange(start, i as int),
        decreases name@.len() - i,
    {
        proof {
            assert(name@.subrange(start, i + 1) =~= name@.subrange(start, i as int).push(
                name@[i as int],
            ));
        }
        work.push(name[i]);
        i = i + 1;
    }
    proof {
        if hidden {
            assert(work@ =~= name@.skip(1));
        } else {
            assert(work@ =~= name@);
        }
    }
    let keep_trailing = work.len() > 0 && is_sep_char(work[work.len() - 1]);
    let t1 = split_camel_case(&work);
    let t2 = split_numbers(&t1);
    let t3 = remove_brackets(&t2);
    let t4 = punct_to_dash(&t3);
    let t5 = if force_dash {
        underscores_to_dashes(&t4)
    } else {
        t4
    };
    let t6 = collapse_mixed_separators(&t5);
    let t7 = collapse_runs(&t6, '-');
    let t8 = if !force_dash {
        collapse_runs(&t7, '_')
    } else {
        t7
    };
    let t9 = collapse_runs(&t8, '.');
    let t10 = if !keep_trailing {
        trim_trailing(trim_trailing(t9, '-'), '_')
    } else {
        t9
    };
    let t11 = to_lowercase(&t10);
    if hidden {
        let mut out: Vec<char> = Vec::new();
        out.push('.');
        let mut j: usize = 0;
        while j < t11.len()
            invariant
                j <= t11@.len(),
                out@ == seq!['.'] + t11@.take(j as int),
            decreases t11@.len() - j,
        {
            out.push(t11[j]);
            j = j + 1;
        }
        proof {
            assert(seq!['.'] + t11@.take(t11@.len() as int) =~= seq!['.'] + t11@);
        }
        out
    } else {
        t11
    }
}

} // verus!
