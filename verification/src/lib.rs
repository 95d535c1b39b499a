//! A filename-normalization engine: decides whether a filename already
//! follows a canonical lowercase, dash-separated convention and, if not,
//! rewrites it into that form while preserving the extension boundary.

use vstd::prelude::*;

pub mod chars;
pub mod rewrite;
pub mod split;
pub mod classify;
pub mod canon;
pub mod laws;

verus! {

/// Options controlling the rewrite.
#[derive(Debug, Clone, Copy)]
pub struct DashifyOptions {
    /// When true, underscores are treated as dashes throughout the rewrite.
    pub force_dash: bool,
}

impl Default for DashifyOptions {
    fn default() -> (res: Self)
        ensures
            !res.force_dash,
    {
        DashifyOptions { force_dash: false }
    }
}

/// What `dashify` returns: an exempt filename comes back unchanged; any
/// other is split into base name and extension, the name runs through the
/// rewrite pipeline, and a non-empty extension is lowercased and
/// reattached after a dot.
pub open spec fn spec_dashify(s: Seq<char>, force_dash: bool) -> Seq<char> {
    if classify::spec_should_leave_alone(s, force_dash) {
        s
    } else {
        let parts = split::spec_split_name_and_extension(s);
        if parts.1.len() > 0 {
            rewrite::spec_process_name(parts.0, force_dash) + seq!['.']
                + rewrite::spec_to_lowercase(parts.1)
        } else {
            rewrite::spec_process_name(parts.0, force_dash)
        }
    }
}

/// Collects the characters of a string slice.
fn str_to_chars(s: &str) -> (res: Vec<char>)
    ensures
        res@ == s@,
{
    let n: usize = s.unicode_len();
    let mut out: Vec<char> = Vec::new();
    let mut i: usize = 0;
    while i < n
        invariant
            i <= n == s@.len(),
            out@ == s@.take(i as int),
        decreases n - i,
    {
        proof {
            assert(s@.take(i + 1) =~= s@.take(i as int).push(s@[i as int]));
        }
        out.push(s.get_char(i));
        i = i + 1;
    }
    proof {
        assert(s@.take(n as int) =~= s@);
    }
    out
}

/// Relies on `String::push`: appends the one character to the string.
#[verifier::external_body]
fn push_char(s: &mut String, c: char)
    ensures
        final(s)@ == old(s)@.push(c),
{
    s.push(c);
}

/// Builds a string from a vector of characters.
fn chars_to_string(v: &Vec<char>) -> (res: String)
    ensures
        res@ == v@,
{
    let mut out = String::new();
    let n: usize = v.len();
    let mut i: usize = 0;
    while i < n
        invariant
            i <= n == v@.len(),
            out@ == v@.take(i as int),
        decreases n - i,
    {
        proof {
            assert(v@.take(i + 1) =~= v@.take(i as int).push(v@[i as int]));
        }
        push_char(&mut out, v[i]);
        i = i + 1;
    }
    proof {
        assert(v@.take(n as int) =~= v@);
    }
    out
}

/// Normalizes a single filename (never a path): an exempt name is returned
/// unchanged, and any other is rewritten into lowercase, dash-separated
/// form with its extension lowercased.  For a fixed `options` the result is
/// a function of the characters of `filename` alone.
pub fn dashify(filename: &str, options: &DashifyOptions) -> (res: String)
    ensures
        res@ == spec_dashify(filename@, options.force_dash),
{
    let chars = str_to_chars(filename);
    if classify::should_leave_alone(&chars, options) {
        return filename.to_owned();
    }
    let (name, ext) = split::split_name_and_extension(&chars);
    let mut out = rewrite::process_name(&name, options.force_dash);
    if ext.len() > 0 {
        out.push('.');
        let low = rewrite::to_lowercase(&ext);
        let mut i: usize = 0;
        let ghost mid = out@;
        while i < low.len()
            invariant
                i <= low@.len(),
                out@ == mid + low@.take(i as int),
            decreases low@.len() - i,
        {
            proof {
                assert(low@.take(i + 1) =~= low@.take(i as int).push(low@[i as int]));
            }
            out.push(low[i]);
            i = i + 1;
        }
        proof {
            assert(low@.take(low@.len() as int) =~= low@);
        }
    }
    chars_to_string(&out)
}

} // verus!
