//! Properties of the engine proved once and for all, over the same spec
//! functions that the executable contracts use.

use vstd::prelude::*;

use crate::canon::{canonical, lemma_lower_noop, lemma_stages_lower_canonical,
    lemma_stages_noop_on_canonical};
use crate::chars::{is_upper, to_lower};
use crate::classify::spec_should_leave_alone;
use crate::rewrite::{spec_process_name, spec_rewrite_stages, spec_to_lowercase};
use crate::split::spec_split_name_and_extension;
use crate::spec_dashify;

verus! {

/// An exempt filename is returned unchanged.
pub proof fn lemma_exempt_unchanged(s: Seq<char>, force_dash: bool)
    requires
        spec_should_leave_alone(s, force_dash),
    ensures
        spec_dashify(s, force_dash) == s,
{
}

/// Whenever the engine's result is itself exempt, a second application
/// returns it unchanged: the engine is idempotent on every input whose
/// image the classifier exempts.
pub proof fn lemma_idempotent_when_result_exempt(s: Seq<char>, force_dash: bool)
    requires
        spec_should_leave_alone(spec_dashify(s, force_dash), force_dash),
    ensures
        spec_dashify(spec_dashify(s, force_dash), force_dash) == spec_dashify(s, force_dash),
{
}

/// On a base name without bracket characters, the rewrite pipeline is
/// idempotent: processing its own output returns that output unchanged.
/// (Bracket removal can put a letter and a digit side by side, which a
/// second pass would then separate; every other stage leaves its own
/// output alone.)
pub proof fn lemma_process_name_idempotent(name: Seq<char>, force_dash: bool)
    requires
        forall|i: int| 0 <= i < name.len() ==> !crate::chars::is_bracket(#[trigger] name[i]),
    ensures
        spec_process_name(spec_process_name(name, force_dash), force_dash) == spec_process_name(
            name,
            force_dash,
        ),
{
    let hidden = name.len() > 0 && name[0] == '.';
    let work = if hidden {
        name.skip(1)
    } else {
        name
    };
    let keep = work.len() > 0 && crate::chars::is_sep(work.last());
    let folded = spec_to_lowercase(spec_rewrite_stages(work, force_dash, keep));
    let r = spec_process_name(name, force_dash);
    assert forall|i: int| 0 <= i < work.len() implies !crate::chars::is_bracket(
        #[trigger] work[i],
    ) by {
        if hidden {
            assert(work[i] == name[i + 1]);
        }
    }
    lemma_stages_lower_canonical(work, force_dash, keep);
    let hidden2 = r.len() > 0 && r[0] == '.';
    let work2 = if hidden2 {
        r.skip(1)
    } else {
        r
    };
    if hidden {
        assert(r == seq!['.'] + folded);
        assert(r[0] == '.');
        assert(work2 =~= folded);
    } else {
        assert(r == folded);
        if hidden2 {
            assert(work2 == folded.skip(1));
            assert forall|i: int| 0 <= i < work2.len() implies #[trigger] work2[i] == folded[i
                + 1] by {}
        }
    }
    assert(canonical(work2, force_dash)) by {
        if !hidden && hidden2 {
            assert forall|i: int|
                0 <= i < work2.len() implies !crate::chars::is_upper(#[trigger] work2[i])
                && !crate::chars::is_dash_punct(work2[i]) && !crate::chars::is_bracket(work2[i])
                && (force_dash ==> work2[i] != '_') by {
                assert(work2[i] == folded[i + 1]);
            }
            assert forall|i: int| 0 <= i && i + 1 < work2.len() implies !(crate::chars::is_sep(
                #[trigger] work2[i],
            ) && crate::chars::is_sep(work2[i + 1])) && !(work2[i] == '.' && work2[i + 1] == '.')
                && !((crate::chars::is_alpha(work2[i]) && crate::chars::is_digit(work2[i + 1]))
                || (crate::chars::is_digit(work2[i]) && crate::chars::is_alpha(
                work2[i + 1],
            ))) by {
                assert(work2[i] == folded[i + 1] && work2[i + 1] == folded[i + 2]);
            }
        }
    }
    let keep2 = work2.len() > 0 && crate::chars::is_sep(work2.last());
    lemma_stages_noop_on_canonical(work2, force_dash, keep2);
    lemma_lower_noop(work2);
    assert(spec_rewrite_stages(work2, force_dash, keep2) == work2);
    if hidden2 {
        assert(spec_process_name(r, force_dash) == seq!['.'] + work2);
        if hidden {
            assert(seq!['.'] + work2 =~= r);
        } else {
            assert(folded[0] == '.');
            assert(seq!['.'] + folded.skip(1) =~= folded);
        }
    } else {
        assert(spec_process_name(r, force_dash) == work2);
    }
}

/// The engine is idempotent on any filename without bracket characters
/// whose base name does not rewrite to nothing: running it on its own
/// output returns that output unchanged.  (Removing a bracket can put a
/// letter and a digit side by side, which only the second pass would then
/// separate; and a base name rewritten to nothing leaves the output
/// starting with the extension's dot, which the second pass reads as a
/// hidden file.)
pub proof fn lemma_dashify_idempotent(s: Seq<char>, force_dash: bool)
    requires
        forall|i: int| 0 <= i < s.len() ==> !crate::chars::is_bracket(#[trigger] s[i]),
        spec_split_name_and_extension(s).1.len() > 0 ==> spec_process_name(
            spec_split_name_and_extension(s).0,
            force_dash,
        ).len() > 0,
    ensures
        spec_dashify(spec_dashify(s, force_dash), force_dash) == spec_dashify(s, force_dash),
{
    let r = spec_dashify(s, force_dash);
    if spec_should_leave_alone(s, force_dash) {
        // an exempt name is returned unchanged, twice
    } else if spec_should_leave_alone(r, force_dash) {
        // the first result is exempt, so the second pass returns it as is
    } else {
        let parts = spec_split_name_and_extension(s);
        let name = parts.0;
        let ext = parts.1;
        let pname = spec_process_name(name, force_dash);
        crate::split::lemma_last_index_from(s, '.', 1);
        let p = crate::split::last_index_from(s, '.', 1);
        if ext.len() > 0 {
            assert(p >= 1);
            assert forall|i: int| 0 <= i < name.len() implies !crate::chars::is_bracket(
                #[trigger] name[i],
            ) by {
                assert(name[i] == s[i]);
            }
            lemma_process_name_idempotent(name, force_dash);
            let lext = spec_to_lowercase(ext);
            assert(r == pname + seq!['.'] + lext);
            assert forall|j: int| 0 <= j < lext.len() implies #[trigger] lext[j] != '.' by {
                assert(lext[j] == to_lower(ext[j]));
                crate::canon::lemma_to_lower_classes(ext[j]);
                assert(ext[j] == s[p + 1 + j]);
            }
            let q = pname.len() as int;
            assert(q >= 1);
            assert(r[q] == '.');
            assert forall|j: int| q < j < r.len() implies #[trigger] r[j] != '.' by {
                assert(r[j] == lext[j - q - 1]);
            }
            crate::split::lemma_last_index_from(r, '.', 1);
            let q2 = crate::split::last_index_from(r, '.', 1);
            assert(q2 == q);
            let parts2 = spec_split_name_and_extension(r);
            assert(parts2.0 =~= pname);
            assert(parts2.1 =~= lext);
            lemma_to_lowercase_no_upper(ext);
            lemma_lower_noop(lext);
            assert(spec_dashify(r, force_dash) == spec_process_name(parts2.0, force_dash)
                + seq!['.'] + spec_to_lowercase(parts2.1));
            assert(spec_dashify(r, force_dash) =~= r);
        } else {
            // no extension: the result is the processed base name alone,
            // which is canonical and therefore already clean -- but this
            // branch assumed the classifier does not exempt it
            assert(r == pname);
            let hidden = name.len() > 0 && name[0] == '.';
            let work = if hidden {
                name.skip(1)
            } else {
                name
            };
            let keep = work.len() > 0 && crate::chars::is_sep(work.last());
            let folded = spec_to_lowercase(spec_rewrite_stages(work, force_dash, keep));
            assert forall|i: int| 0 <= i < work.len() implies !crate::chars::is_bracket(
                #[trigger] work[i],
            ) by {
                let k: int = if hidden {
                    i + 1
                } else {
                    i
                };
                assert(work[i] == name[k]);
                if p >= 1 {
                    assert(name[k] == s[k]);
                }
            }
            lemma_stages_lower_canonical(work, force_dash, keep);
            if r.len() > 0 && r[0] == '.' {
                if hidden {
                    assert(r == seq!['.'] + folded);
                    assert(r.skip(1) =~= folded);
                } else {
                    assert(r == folded);
                    let t = r.skip(1);
                    assert forall|i: int|
                        0 <= i < t.len() implies !is_upper(#[trigger] t[i])
                        && !crate::chars::is_dash_punct(t[i]) && !crate::chars::is_bracket(t[i])
                        && (force_dash ==> t[i] != '_') by {
                        assert(t[i] == folded[i + 1]);
                    }
                    assert forall|i: int|
                        0 <= i && i + 1 < t.len() implies !(crate::chars::is_sep(
                        #[trigger] t[i],
                    ) && crate::chars::is_sep(t[i + 1])) && !(t[i] == '.' && t[i + 1] == '.')
                        && !((crate::chars::is_alpha(t[i]) && crate::chars::is_digit(t[i + 1]))
                        || (crate::chars::is_digit(t[i]) && crate::chars::is_alpha(
                        t[i + 1],
                    ))) by {
                        assert(t[i] == folded[i + 1] && t[i + 1] == folded[i + 2]);
                    }
                }
                assert(canonical(r.skip(1), force_dash));
            }
            crate::canon::lemma_canonical_already_clean(r, force_dash);
            assert(spec_should_leave_alone(r, force_dash));
            assert(false);
        }
    }
}

/// Case folding never leaves an uppercase ASCII letter behind.
pub proof fn lemma_to_lowercase_no_upper(e: Seq<char>)
    ensures
        forall|i: int|
            0 <= i < spec_to_lowercase(e).len() ==> !is_upper(#[trigger] spec_to_lowercase(e)[i]),
{
    assert forall|i: int|
        0 <= i < spec_to_lowercase(e).len() implies !is_upper(
        #[trigger] spec_to_lowercase(e)[i],
    ) by {
        assert(spec_to_lowercase(e)[i] == to_lower(e[i]));
    }
}

/// A filename the classifier does not exempt comes back with no uppercase
/// ASCII letter anywhere: base name and extension are both case-folded.
pub proof fn lemma_rewritten_no_uppercase(s: Seq<char>, force_dash: bool)
    requires
        !spec_should_leave_alone(s, force_dash),
    ensures
        forall|i: int|
            0 <= i < spec_dashify(s, force_dash).len() ==> !is_upper(
                #[trigger] spec_dashify(s, force_dash)[i],
            ),
{
    let parts = spec_split_name_and_extension(s);
    let name = spec_process_name(parts.0, force_dash);
    lemma_process_name_no_uppercase(parts.0, force_dash);
    lemma_to_lowercase_no_upper(parts.1);
    assert forall|i: int|
        0 <= i < spec_dashify(s, force_dash).len() implies !is_upper(
        #[trigger] spec_dashify(s, force_dash)[i],
    ) by {
        if parts.1.len() > 0 {
            let r = name + seq!['.'] + spec_to_lowercase(parts.1);
            if i < name.len() {
                assert(r[i] == name[i]);
            } else if i == name.len() {
                assert(r[i] == '.');
            } else {
                assert(r[i] == spec_to_lowercase(parts.1)[i - name.len() - 1]);
            }
        }
    }
}

/// The processed base name holds no uppercase ASCII letter.
pub proof fn lemma_process_name_no_uppercase(name: Seq<char>, force_dash: bool)
    ensures
        forall|i: int|
            0 <= i < spec_process_name(name, force_dash).len() ==> !is_upper(
                #[trigger] spec_process_name(name, force_dash)[i],
            ),
{
    let r = spec_process_name(name, force_dash);
    let hidden = name.len() > 0 && name[0] == '.';
    let work = if hidden {
        name.skip(1)
    } else {
        name
    };
    let keep_trailing = work.len() > 0 && crate::chars::is_sep(work.last());
    let folded = spec_to_lowercase(spec_rewrite_stages(work, force_dash, keep_trailing));
    lemma_to_lowercase_no_upper(spec_rewrite_stages(work, force_dash, keep_trailing));
    assert forall|i: int| 0 <= i < r.len() implies !is_upper(#[trigger] r[i]) by {
        if hidden {
            assert(r == seq!['.'] + folded);
            if i == 0 {
                assert(r[i] == '.');
            } else {
                assert(r[i] == folded[i - 1]);
            }
        } else {
            assert(r == folded);
        }
    }
}

/// Whenever an extension is present and the filename is not exempt, the
/// returned filename is the processed base name, a dot, and the extension
/// with every uppercase ASCII letter lowercased.
pub proof fn lemma_extension_normalized(s: Seq<char>, force_dash: bool)
    requires
        !spec_should_leave_alone(s, force_dash),
        spec_split_name_and_extension(s).1.len() > 0,
    ensures
        spec_dashify(s, force_dash) == spec_process_name(
            spec_split_name_and_extension(s).0,
            force_dash,
        ) + seq!['.'] + spec_to_lowercase(spec_split_name_and_extension(s).1),
        forall|i: int|
            0 <= i < spec_to_lowercase(spec_split_name_and_extension(s).1).len() ==> !is_upper(
                #[trigger] spec_to_lowercase(spec_split_name_and_extension(s).1)[i],
            ),
{
    lemma_to_lowercase_no_upper(spec_split_name_and_extension(s).1);
}

} // verus!
