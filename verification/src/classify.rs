//! The exemption classifier: an ordered chain of rules deciding whether a
//! filename is left completely alone.  A name is exempt as soon as one rule
//! matches; since every rule answers "leave alone", the decision is the
//! disjunction of the rules.

use vstd::prelude::*;

use crate::chars::{is_lower, is_upper, is_digit, is_alpha, is_blacklisted, is_ascii_char,
    is_lower_char, is_upper_char, is_digit_char, is_alpha_char, is_blacklisted_char,
    is_ascii_exec};
use crate::DashifyOptions;

verus! {

// ---------------------------------------------------------------------------
// Shared helpers
// ---------------------------------------------------------------------------

/// The smallest index of a dot in `s` at or after `i`, or `s.len()` when
/// there is none.  `s.take(first_dot_from(s, 0))` is the base name: the
/// part before the first dot.
pub open spec fn first_dot_from(s: Seq<char>, i: int) -> int
    decreases s.len() - i,
{
    if 0 <= i < s.len() {
        if s[i] == '.' {
            i
        } else {
            first_dot_from(s, i + 1)
        }
    } else {
        s.len() as int
    }
}

/// Finds the index of the first dot, or the length when there is none.
pub fn first_dot(s: &Vec<char>) -> (res: usize)
    ensures
        res as int == first_dot_from(s@, 0),
        res <= s@.len(),
{
    first_dot_from_exec(s, 0)
}

pub open spec fn has_space(s: Seq<char>) -> bool {
    exists|i: int| 0 <= i < s.len() && s[i] == ' '
}

/// Whether any character of `s` is a space.
pub fn contains_space(s: &Vec<char>) -> (res: bool)
    ensures
        res == has_space(s@),
{
    let n: usize = s.len();
    let mut i: usize = 0;
    while i < n
        invariant
            i <= n == s@.len(),
            forall|j: int| 0 <= j < i ==> s@[j] != ' ',
        decreases n - i,
    {
        if s[i] == ' ' {
            return true;
        }
        i = i + 1;
    }
    false
}

/// A clean character: lowercase letter, digit, dash, underscore or dot.
pub open spec fn is_clean_char(c: char) -> bool {
    is_lower(c) || is_digit(c) || c == '-' || c == '_' || c == '.'
}

pub open spec fn is_clean_range(s: Seq<char>, from: int, to: int) -> bool {
    forall|i: int| from <= i < to ==> is_clean_char(s[i])
}

/// Whether every character of the name is a lowercase letter, digit, dash,
/// underscore or dot (the empty name counts as clean).
pub fn is_clean_name(s: &Vec<char>) -> (res: bool)
    ensures
        res == is_clean_range(s@, 0, s@.len() as int),
{
    let n: usize = s.len();
    let mut i: usize = 0;
    while i < n
        invariant
            i <= n == s@.len(),
            forall|j: int| 0 <= j < i ==> is_clean_char(s@[j]),
        decreases n - i,
    {
        let c = s[i];
        if !(is_lower_char(c) || is_digit_char(c) || c == '-' || c == '_' || c == '.') {
            return false;
        }
        i = i + 1;
    }
    true
}

/// A lowercase-to-uppercase transition somewhere in `s[from..to]`.
pub open spec fn has_camel_range(s: Seq<char>, from: int, to: int) -> bool {
    exists|i: int| from < i < to && is_lower(s[i - 1]) && is_upper(s[i])
}

/// Whether the name contains a camel-case transition: an uppercase letter
/// immediately after a lowercase one.
pub fn has_camel_case(s: &Vec<char>) -> (res: bool)
    ensures
        res == has_camel_range(s@, 0, s@.len() as int),
{
    let n: usize = s.len();
    let mut i: usize = 1;
    while i < n
        invariant
            n == s@.len(),
            1 <= i,
            !has_camel_range(s@, 0, i as int),
        decreases n - i,
    {
        if is_lower_char(s[i - 1]) && is_upper_char(s[i]) {
            return true;
        }
        i = i + 1;
    }
    false
}

/// A letter/digit adjacency somewhere in `s[from..to]`, in either order.
pub open spec fn has_letter_digit_range(s: Seq<char>, from: int, to: int) -> bool {
    exists|i: int|
        from < i < to && ((is_alpha(s[i - 1]) && is_digit(#[trigger] s[i])) || (is_digit(
            s[i - 1],
        ) && is_alpha(s[i])))
}

/// Whether the name contains a letter next to a digit, in either order.
pub fn has_letter_number_transition(s: &Vec<char>) -> (res: bool)
    ensures
        res == has_letter_digit_range(s@, 0, s@.len() as int),
{
    let n: usize = s.len();
    let mut i: usize = 1;
    while i < n
        invariant
            n == s@.len(),
            1 <= i,
            !has_letter_digit_range(s@, 0, i as int),
        decreases n - i,
    {
        let prev = s[i - 1];
        let c = s[i];
        if (is_alpha_char(prev) && is_digit_char(c)) || (is_digit_char(prev)
            && is_alpha_char(c)) {
            return true;
        }
        i = i + 1;
    }
    false
}

/// Copies `s[from..to]` into a fresh vector.
pub fn subvec(s: &Vec<char>, from: usize, to: usize) -> (res: Vec<char>)
    requires
        from <= to <= s@.len(),
    ensures
        res@ == s@.subrange(from as int, to as int),
{
    let mut out: Vec<char> = Vec::new();
    let mut i: usize = from;
    while i < to
        invariant
            from <= i <= to <= s@.len(),
            out@ == s@.subrange(from as int, i as int),
        decreases to - i,
    {
        proof {
            assert(s@.subrange(from as int, i + 1) =~= s@.subrange(from as int, i as int).push(
                s@[i as int],
            ));
        }
        out.push(s[i]);
        i = i + 1;
    }
    out
}

// ---------------------------------------------------------------------------
// Rule 1: leading or trailing space
// ---------------------------------------------------------------------------

pub open spec fn spec_edge_space(s: Seq<char>) -> bool {
    s.len() > 0 && (s[0] == ' ' || s[s.len() - 1] == ' ')
}

// ---------------------------------------------------------------------------
// Rule 2: dunder pattern
// ---------------------------------------------------------------------------

/// The part before the first dot has the shape `__word__`: double
/// underscores around a non-empty interior of letters, digits and
/// underscores that neither starts nor ends with an underscore.
pub open spec fn spec_dunder(s: Seq<char>) -> bool {
    let b = first_dot_from(s, 0);
    &&& b > 4
    &&& s[0] == '_' && s[1] == '_' && s[b - 1] == '_' && s[b - 2] == '_'
    &&& s[2] != '_' && s[b - 3] != '_'
    &&& forall|i: int| 2 <= i < b - 2 ==> is_alpha(s[i]) || is_digit(s[i]) || s[i] == '_'
}

/// Whether the part before the first dot matches the dunder pattern.
pub fn is_dunder_pattern(s: &Vec<char>) -> (res: bool)
    ensures
        res == spec_dunder(s@),
{
    let b = first_dot(s);
    if !(b > 4) {
        return false;
    }
    if !(s[0] == '_' && s[1] == '_' && s[b - 1] == '_' && s[b - 2] == '_') {
        return false;
    }
    if s[2] == '_' || s[b - 3] == '_' {
        return false;
    }
    let mut i: usize = 2;
    while i < b - 2
        invariant
            2 <= i <= b - 2,
            b > 4,
            b as int == first_dot_from(s@, 0),
            (b as int) <= s@.len(),
            forall|j: int| 2 <= j < i ==> is_alpha(s@[j]) || is_digit(s@[j]) || s@[j] == '_',
        decreases b - 2 - i,
    {
        let c = s[i];
        if !(is_alpha_char(c) || is_digit_char(c) || c == '_') {
            return false;
        }
        i = i + 1;
    }
    true
}

// ---------------------------------------------------------------------------
// Rule 3: any non-ASCII character
// ---------------------------------------------------------------------------

pub open spec fn spec_has_non_ascii(s: Seq<char>) -> bool {
    exists|i: int| 0 <= i < s.len() && !is_ascii_char(s[i])
}

/// Whether the name holds any character outside ASCII.
pub fn has_non_ascii(s: &Vec<char>) -> (res: bool)
    ensures
        res == spec_has_non_ascii(s@),
{
    let n: usize = s.len();
    let mut i: usize = 0;
    while i < n
        invariant
            i <= n == s@.len(),
            forall|j: int| 0 <= j < i ==> is_ascii_char(s@[j]),
        decreases n - i,
    {
        if !is_ascii_exec(s[i]) {
            return true;
        }
        i = i + 1;
    }
    false
}

// ---------------------------------------------------------------------------
// Rule 4: clean hidden file
// ---------------------------------------------------------------------------

/// A hidden file whose remainder is clean, with no space anywhere and no
/// camel-case transition in the remainder's first dot-delimited segment.
pub open spec fn spec_hidden_clean(s: Seq<char>) -> bool {
    &&& s.len() > 0
    &&& s[0] == '.'
    &&& !has_space(s)
    &&& is_clean_range(s, 1, s.len() as int)
    &&& !has_camel_range(s, 1, first_dot_from(s, 1))
}

// ---------------------------------------------------------------------------
// Rule 5: extension-only file
// ---------------------------------------------------------------------------

/// A name such as `.txt`: a leading dot, no further dot, and a clean
/// remainder.
pub open spec fn spec_extension_only(s: Seq<char>) -> bool {
    &&& s.len() > 0
    &&& s[0] == '.'
    &&& first_dot_from(s, 1) == s.len()
    &&& is_clean_range(s, 1, s.len() as int)
}

// ---------------------------------------------------------------------------
// Rule 6: all-dots pattern
// ---------------------------------------------------------------------------

/// A name such as `...txt`: three leading dots and nothing but dots and
/// lowercase letters.
pub open spec fn spec_all_dots(s: Seq<char>) -> bool {
    &&& s.len() >= 3
    &&& s[0] == '.' && s[1] == '.' && s[2] == '.'
    &&& forall|i: int| 0 <= i < s.len() ==> s[i] == '.' || is_lower(s[i])
}

/// Whether the name starts with three dots and holds only dots and
/// lowercase letters.
pub fn is_all_dots_style(s: &Vec<char>) -> (res: bool)
    ensures
        res == spec_all_dots(s@),
{
    let n: usize = s.len();
    if n < 3 || !(s[0] == '.' && s[1] == '.' && s[2] == '.') {
        return false;
    }
    let mut i: usize = 0;
    while i < n
        invariant
            i <= n == s@.len(),
            forall|j: int| 0 <= j < i ==> s@[j] == '.' || is_lower(s@[j]),
        decreases n - i,
    {
        let c = s[i];
        if !(c == '.' || is_lower_char(c)) {
            return false;
        }
        i = i + 1;
    }
    true
}

// ---------------------------------------------------------------------------
// Rule 7: already clean
// ---------------------------------------------------------------------------

/// A name that the rewrite would not improve: lowercase throughout, no
/// doubled dash or tripled underscore, consecutive dots only in the leading
/// dot run, no blacklisted punctuation, no adjacent mixed separators, and no
/// letter/digit adjacency in the base name.  With `force_dash` set, any
/// underscore keeps the name from being clean.
pub open spec fn spec_already_clean(s: Seq<char>, force_dash: bool) -> bool {
    &&& !(exists|i: int| 0 <= i < s.len() && is_upper(s[i]))
    &&& !(force_dash && exists|i: int| 0 <= i < s.len() && s[i] == '_')
    &&& !(exists|i: int| 0 <= i && i + 1 < s.len() && #[trigger] s[i] == '-' && s[i + 1] == '-')
    &&& !(exists|i: int|
        0 <= i && i + 2 < s.len() && #[trigger] s[i] == '_' && s[i + 1] == '_' && s[i + 2]
            == '_')
    &&& (forall|i: int|
        (0 <= i && i + 1 < s.len() && #[trigger] s[i] == '.' && s[i + 1] == '.') ==> (
        forall|j: int| 0 <= j <= i ==> #[trigger] s[j] == '.'))
    &&& !(exists|i: int| 0 <= i < s.len() && is_blacklisted(#[trigger] s[i]))
    &&& !(exists|i: int|
        0 <= i && i + 1 < s.len() && ((#[trigger] s[i] == '-' && s[i + 1] == '_') || (s[i]
            == '_' && s[i + 1] == '-')))
    &&& !has_letter_digit_range(s, 0, first_dot_from(s, 0))
}

/// Whether the filename is already properly dashified.
pub fn is_already_clean(s: &Vec<char>, options: &DashifyOptions) -> (res: bool)
    ensures
        res == spec_already_clean(s@, options.force_dash),
{
    let n: usize = s.len();
    // One pass for the per-character and per-pair conditions.
    let mut i: usize = 0;
    let mut prefix_dots: bool = true;
    while i < n
        invariant
            i <= n == s@.len(),
            prefix_dots == (forall|j: int| 0 <= j < i ==> #[trigger] s@[j] == '.'),
            forall|j: int| 0 <= j < i ==> !is_upper(#[trigger] s@[j]),
            !(options.force_dash && exists|j: int| 0 <= j < i && #[trigger] s@[j] == '_'),
            forall|j: int| 0 <= j < i ==> !is_blacklisted(#[trigger] s@[j]),
            forall|j: int|
                0 <= j && j + 1 < i ==> !(#[trigger] s@[j] == '-' && s@[j + 1] == '-'),
            forall|j: int|
                0 <= j && j + 2 < i ==> !(#[trigger] s@[j] == '_' && s@[j + 1] == '_'
                    && s@[j + 2] == '_'),
            forall|j: int|
                (0 <= j && j + 1 < i && #[trigger] s@[j] == '.' && s@[j + 1] == '.') ==> (
                forall|k: int| 0 <= k <= j ==> #[trigger] s@[k] == '.'),
            forall|j: int|
                0 <= j && j + 1 < i ==> !((#[trigger] s@[j] == '-' && s@[j + 1] == '_') || (
                s@[j] == '_' && s@[j + 1] == '-')),
        decreases n - i,
    {
        let c = s[i];
        if is_upper_char(c) {
            return false;
        }
        if options.force_dash && c == '_' {
            return false;
        }
        if is_blacklisted_char(c) {
            return false;
        }
        if i >= 1 {
            let prev = s[i - 1];
            if prev == '-' && c == '-' {
                return false;
            }
            if (prev == '-' && c == '_') || (prev == '_' && c == '-') {
                return false;
            }
            if prev == '.' && c == '.' && !prefix_dots {
                return false;
            }
            if i >= 2 && s[i - 2] == '_' && prev == '_' && c == '_' {
                return false;
            }
        }
        prefix_dots = prefix_dots && c == '.';
        i = i + 1;
    }
    // No letter/digit adjacency in the base name.
    let b = first_dot(s);
    proof {
        lemma_first_dot_bounds(s@, 0);
    }
    let base = subvec(s, 0, b);
    if has_letter_number_transition(&base) {
        proof {
            let sub = s@.subrange(0, b as int);
            let w = choose|k: int|
                0 < k < sub.len() && ((is_alpha(sub[k - 1]) && is_digit(#[trigger] sub[k]))
                    || (is_digit(sub[k - 1]) && is_alpha(sub[k])));
            assert(0 < w < b as int && ((is_alpha(s@[w - 1]) && is_digit(s@[w])) || (is_digit(
                s@[w - 1],
            ) && is_alpha(s@[w]))));
        }
        return false;
    }
    proof {
        let sub = s@.subrange(0, b as int);
        assert forall|k: int|
            0 < k < b as int implies !((is_alpha(s@[k - 1]) && is_digit(#[trigger] s@[k]))
            || (is_digit(s@[k - 1]) && is_alpha(s@[k]))) by {
            assert(sub[k] == s@[k] && sub[k - 1] == s@[k - 1]);
            assert(!has_letter_digit_range(sub, 0, sub.len() as int));
        }
    }
    true
}

/// The first dot's index never passes the length of the sequence.
pub proof fn lemma_first_dot_bounds(s: Seq<char>, i: int)
    requires
        0 <= i <= s.len(),
    ensures
        i <= first_dot_from(s, i) <= s.len(),
    decreases s.len() - i,
{
    if i < s.len() && s[i] != '.' {
        lemma_first_dot_bounds(s, i + 1);
    }
}

// ---------------------------------------------------------------------------
// Rule 8: ALL-CAPS convention
// ---------------------------------------------------------------------------

/// A base name of uppercase letters, underscores and dashes with at least
/// one uppercase letter, and no space anywhere in the filename.
pub open spec fn spec_all_caps(s: Seq<char>) -> bool {
    let b = first_dot_from(s, 0);
    &&& b > 0
    &&& forall|i: int| 0 <= i < b ==> is_upper(s[i]) || s[i] == '_' || s[i] == '-'
    &&& exists|i: int| 0 <= i < b && is_upper(s[i])
    &&& !has_space(s)
}

/// Whether the part before the first dot follows the ALL-CAPS convention.
pub fn is_all_caps_filename(s: &Vec<char>) -> (res: bool)
    ensures
        res == spec_all_caps(s@),
{
    let b = first_dot(s);
    proof {
        lemma_first_dot_bounds(s@, 0);
    }
    if b == 0 {
        return false;
    }
    let mut i: usize = 0;
    let mut any_upper: bool = false;
    while i < b
        invariant
            i <= b,
            b as int == first_dot_from(s@, 0),
            (b as int) <= s@.len(),
            forall|j: int| 0 <= j < i ==> is_upper(s@[j]) || s@[j] == '_' || s@[j] == '-',
            any_upper == exists|j: int| 0 <= j < i && is_upper(s@[j]),
        decreases b - i,
    {
        let c = s[i];
        if !(is_upper_char(c) || c == '_' || c == '-') {
            return false;
        }
        if is_upper_char(c) {
            any_upper = true;
        }
        i = i + 1;
    }
    if !any_upper {
        return false;
    }
    !contains_space(s)
}

// ---------------------------------------------------------------------------
// Rule 9: semver style
// ---------------------------------------------------------------------------

/// The end of the digit run starting at `i`: the first index at or after
/// `i` whose character is not a digit.
pub open spec fn digit_run_end(s: Seq<char>, i: int) -> int
    decreases s.len() - i,
{
    if 0 <= i < s.len() && is_digit(s[i]) {
        digit_run_end(s, i + 1)
    } else {
        i
    }
}

/// The end of the run of lowercase letters, digits and dashes starting at
/// `i`.
pub open spec fn suffix_run_end(s: Seq<char>, i: int) -> int
    decreases s.len() - i,
{
    if 0 <= i < s.len() && (is_lower(s[i]) || is_digit(s[i]) || s[i] == '-') {
        suffix_run_end(s, i + 1)
    } else {
        i
    }
}

/// The trailing extension of a semver-style name: a dot followed by one or
/// more lowercase letters, reaching the end.
pub open spec fn semver_ext(s: Seq<char>, i: int) -> bool {
    &&& i < s.len() && s[i] == '.'
    &&& i + 1 < s.len()
    &&& forall|j: int| i + 1 <= j < s.len() ==> is_lower(s[j])
}

/// The optional pre-release part: a dash and a non-empty run of lowercase
/// letters, digits and dashes, then the extension.
pub open spec fn semver_suffix(s: Seq<char>, i: int) -> bool {
    if i < s.len() && s[i] == '-' {
        let j = suffix_run_end(s, i + 1);
        j > i + 1 && semver_ext(s, j)
    } else {
        semver_ext(s, i)
    }
}

/// The optional third numeric component, then the pre-release part.
pub open spec fn semver_tail(s: Seq<char>, i: int) -> bool {
    if i < s.len() && s[i] == '.' && i + 1 < s.len() && is_digit(s[i + 1]) {
        semver_suffix(s, digit_run_end(s, i + 1))
    } else {
        semver_suffix(s, i)
    }
}

/// A semver-style name: an optional `v`, two or three dot-separated digit
/// runs, an optional dashed pre-release suffix, and a lowercase extension.
pub open spec fn spec_semver(s: Seq<char>) -> bool {
    let start: int = if s.len() > 0 && s[0] == 'v' {
        1
    } else {
        0
    };
    let i1 = digit_run_end(s, start);
    &&& i1 > start
    &&& i1 < s.len() && s[i1] == '.'
    &&& digit_run_end(s, i1 + 1) > i1 + 1
    &&& semver_tail(s, digit_run_end(s, i1 + 1))
}

/// Scans a digit run, returning its end.
fn scan_digits(s: &Vec<char>, from: usize) -> (res: usize)
    requires
        from <= s@.len(),
    ensures
        res as int == digit_run_end(s@, from as int),
        from <= res <= s@.len(),
{
    let n: usize = s.len();
    let mut i: usize = from;
    while i < n && is_digit_char(s[i])
        invariant
            from <= i <= n == s@.len(),
            digit_run_end(s@, from as int) == digit_run_end(s@, i as int),
        decreases n - i,
    {
        i = i + 1;
    }
    i
}

/// Scans a run of lowercase letters, digits and dashes, returning its end.
fn scan_suffix_chars(s: &Vec<char>, from: usize) -> (res: usize)
    requires
        from <= s@.len(),
    ensures
        res as int == suffix_run_end(s@, from as int),
        from <= res <= s@.len(),
{
    let n: usize = s.len();
    let mut i: usize = from;
    while i < n && (is_lower_char(s[i]) || is_digit_char(s[i]) || s[i] == '-')
        invariant
            from <= i <= n == s@.len(),
            suffix_run_end(s@, from as int) == suffix_run_end(s@, i as int),
        decreases n - i,
    {
        i = i + 1;
    }
    i
}

/// Checks the trailing `.extension` of a semver-style name.
fn check_semver_ext(s: &Vec<char>, from: usize) -> (res: bool)
    requires
        from <= s@.len(),
    ensures
        res == semver_ext(s@, from as int),
{
    let n: usize = s.len();
    if !(from < n && s[from] == '.' && from + 1 < n) {
        return false;
    }
    let mut i: usize = from + 1;
    while i < n
        invariant
            from + 1 <= i <= n == s@.len(),
            forall|j: int| from + 1 <= j < i ==> is_lower(s@[j]),
        decreases n - i,
    {
        if !is_lower_char(s[i]) {
            return false;
        }
        i = i + 1;
    }
    true
}

/// Checks the optional pre-release suffix, then the extension.
fn check_semver_suffix(s: &Vec<char>, from: usize) -> (res: bool)
    requires
        from <= s@.len(),
    ensures
        res == semver_suffix(s@, from as int),
{
    let n: usize = s.len();
    if from < n && s[from] == '-' {
        let j = scan_suffix_chars(s, from + 1);
        if j > from + 1 {
            check_semver_ext(s, j)
        } else {
            false
        }
    } else {
        check_semver_ext(s, from)
    }
}

/// Whether the filename looks like a semver-style version, such as a `v`,
/// two or three numeric components, an optional pre-release suffix and a
/// lowercase extension.
pub fn is_semver_style(s: &Vec<char>) -> (res: bool)
    ensures
        res == spec_semver(s@),
{
    let n: usize = s.len();
    let start: usize = if n > 0 && s[0] == 'v' {
        1
    } else {
        0
    };
    let i1 = scan_digits(s, start);
    if !(i1 > start && i1 < n && s[i1] == '.') {
        return false;
    }
    let i2 = scan_digits(s, i1 + 1);
    if !(i2 > i1 + 1) {
        return false;
    }
    // Optional third numeric component.
    if i2 < n && s[i2] == '.' && i2 + 1 < n && is_digit_char(s[i2 + 1]) {
        let i3 = scan_digits(s, i2 + 1);
        check_semver_suffix(s, i3)
    } else {
        check_semver_suffix(s, i2)
    }
}

// ---------------------------------------------------------------------------
// Rule 10: compressed archives
// ---------------------------------------------------------------------------

/// The length of a recognized trailing archive suffix (`.tar.gz`,
/// `.tar.bz2` or `.tar.xz`), or 0 when there is none.
pub open spec fn archive_suffix_len(s: Seq<char>) -> int {
    let n = s.len() as int;
    if s.len() >= 7 && s[n - 7] == '.' && s[n - 6] == 't' && s[n - 5] == 'a' && s[n - 4] == 'r'
        && s[n - 3] == '.' && s[n - 2] == 'g' && s[n - 1] == 'z' {
        7
    } else if s.len() >= 8 && s[n - 8] == '.' && s[n - 7] == 't' && s[n - 6] == 'a' && s[n - 5]
        == 'r' && s[n - 4] == '.' && s[n - 3] == 'b' && s[n - 2] == 'z' && s[n - 1] == '2' {
        8
    } else if s.len() >= 7 && s[n - 7] == '.' && s[n - 6] == 't' && s[n - 5] == 'a' && s[n - 4]
        == 'r' && s[n - 3] == '.' && s[n - 2] == 'x' && s[n - 1] == 'z' {
        7
    } else {
        0
    }
}

/// A compressed-archive name: a `.tar.gz`, `.tar.bz2` or `.tar.xz` ending
/// whose part before those two extension segments is clean.
pub open spec fn spec_archive(s: Seq<char>) -> bool {
    archive_suffix_len(s) > 0 && is_clean_range(s, 0, s.len() - archive_suffix_len(s))
}

/// Whether the filename is a clean compressed-archive name.
pub fn is_archive_style(s: &Vec<char>) -> (res: bool)
    ensures
        res == spec_archive(s@),
{
    let n: usize = s.len();
    let suffix: usize = if n >= 7 && s[n - 7] == '.' && s[n - 6] == 't' && s[n - 5] == 'a'
        && s[n - 4] == 'r' && s[n - 3] == '.' && s[n - 2] == 'g' && s[n - 1] == 'z' {
        7
    } else if n >= 8 && s[n - 8] == '.' && s[n - 7] == 't' && s[n - 6] == 'a' && s[n - 5] == 'r'
        && s[n - 4] == '.' && s[n - 3] == 'b' && s[n - 2] == 'z' && s[n - 1] == '2' {
        8
    } else if n >= 7 && s[n - 7] == '.' && s[n - 6] == 't' && s[n - 5] == 'a' && s[n - 4] == 'r'
        && s[n - 3] == '.' && s[n - 2] == 'x' && s[n - 1] == 'z' {
        7
    } else {
        0
    };
    if suffix == 0 {
        return false;
    }
    let head = subvec(s, 0, n - suffix);
    let clean = is_clean_name(&head);
    proof {
        let sub = s@.subrange(0, n - suffix as int);
        assert forall|k: int| 0 <= k < n - suffix as int implies #[trigger] sub[k] == s@[k] by {}
        if clean {
            assert forall|k: int| 0 <= k < n - suffix as int implies is_clean_char(s@[k]) by {
                assert(is_clean_char(sub[k]));
            }
        } else {
            let w = choose|k: int| 0 <= k < sub.len() && !is_clean_char(sub[k]);
            assert(!is_clean_char(s@[w]));
        }
    }
    clean
}

// ---------------------------------------------------------------------------
// The classifier
// ---------------------------------------------------------------------------

/// Whether any exemption rule matches: such a filename is returned
/// unchanged.
pub open spec fn spec_should_leave_alone(s: Seq<char>, force_dash: bool) -> bool {
    ||| spec_edge_space(s)
    ||| spec_dunder(s)
    ||| spec_has_non_ascii(s)
    ||| spec_hidden_clean(s)
    ||| spec_extension_only(s)
    ||| spec_all_dots(s)
    ||| spec_already_clean(s, force_dash)
    ||| spec_all_caps(s)
    ||| spec_semver(s)
    ||| spec_archive(s)
}

/// Decides whether a filename is left completely alone.  The rules are
/// tried in order and the first match wins; a name that no rule matches is
/// rewritten.
pub fn should_leave_alone(s: &Vec<char>, options: &DashifyOptions) -> (res: bool)
    ensures
        res == spec_should_leave_alone(s@, options.force_dash),
{
    let n: usize = s.len();
    let edge_space = n > 0 && (s[0] == ' ' || s[n - 1] == ' ');
    if edge_space {
        return true;
    }
    if is_dunder_pattern(s) {
        return true;
    }
    if has_non_ascii(s) {
        return true;
    }
    let mut hidden_clean: bool = false;
    let mut extension_only: bool = false;
    if n > 0 && s[0] == '.' {
        let no_space = !contains_space(s);
        let rest = subvec(s, 1, n);
        let fd = first_dot_from_exec(s, 1);
        let seg = subvec(s, 1, fd);
        let rest_clean = is_clean_name(&rest);
        let seg_camel = has_camel_case(&seg);
        proof {
            let sub = s@.subrange(1, n as int);
            let segv = s@.subrange(1, fd as int);
            if rest_clean {
                assert forall|k: int| 1 <= k < n implies is_clean_char(s@[k]) by {
                    assert(is_clean_char(sub[k - 1]));
                }
            } else {
                let w = choose|k: int| 0 <= k < sub.len() && !is_clean_char(sub[k]);
                assert(!is_clean_char(s@[w + 1]));
            }
            if seg_camel {
                let w = choose|k: int|
                    0 < k < segv.len() && is_lower(segv[k - 1]) && is_upper(#[trigger] segv[k]);
                assert(is_lower(s@[w]) && is_upper(s@[w + 1]));
                assert(has_camel_range(s@, 1, fd as int));
            } else {
                assert forall|k: int|
                    1 < k < fd as int implies !(is_lower(s@[k - 1]) && is_upper(
                    #[trigger] s@[k])) by {
                    assert(segv[k - 2] == s@[k - 1] && segv[k - 1] == s@[k]);
                    assert(!has_camel_range(segv, 0, segv.len() as int));
                }
            }
        }
        hidden_clean = no_space && rest_clean && !seg_camel;
        extension_only = fd == n && rest_clean;
    }
    if hidden_clean || extension_only {
        return true;
    }
    if is_all_dots_style(s) {
        return true;
    }
    if is_already_clean(s, options) {
        return true;
    }
    if is_all_caps_filename(s) {
        return true;
    }
    if is_semver_style(s) {
        return true;
    }
    is_archive_style(s)
}

/// Finds the index of the first dot at or after `from`, or the length when
/// there is none.
pub fn first_dot_from_exec(s: &Vec<char>, from: usize) -> (res: usize)
    requires
        from <= s@.len(),
    ensures
        res as int == first_dot_from(s@, from as int),
        from <= res <= s@.len(),
{
    let n: usize = s.len();
    let mut i: usize = from;
    while i < n
        invariant
            from <= i <= n == s@.len(),
            first_dot_from(s@, from as int) == first_dot_from(s@, i as int),
        decreases n - i,
    {
        if s[i] == '.' {
            return i;
        }
        i = i + 1;
    }
    n
}

} // verus!
