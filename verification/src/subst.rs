//! Environment-variable interpolation inside a string scalar.
//!
//! The scanner walks the string left to right looking for the two-character
//! marker `${`.  Text already emitted decides escaping: two trailing
//! backslashes collapse to one and the marker substitutes normally; exactly
//! one trailing backslash is dropped and the marker is kept literally.  A
//! substituted marker runs to the first `}`; its interior splits on the first
//! `:` into a variable name and an optional fallback.  A set variable
//! replaces the span with its value, an unset one with the fallback when
//! given, and with the empty string otherwise.  A marker with no closing `}`
//! is kept literally.

use vstd::prelude::*;

use crate::envmap::{env_value, EnvMap};
use crate::text::{find_char, find_char_idx, lemma_find_char_idx};

verus! {

/// The two characters that open an interpolation marker.
pub open spec fn marker_seq() -> Seq<char> {
    seq!['$', '{']
}

/// Whether an interpolation marker starts at position `i` of `s`.
pub open spec fn is_marker_at(s: Seq<char>, i: int) -> bool {
    0 <= i && i + 2 <= s.len() && s[i] == '$' && s[i + 1] == '{'
}

/// Whether `s` holds no interpolation marker at all.
pub open spec fn marker_free(s: Seq<char>) -> bool {
    forall|i: int| !is_marker_at(s, i)
}

/// What replaces the span `${interior}`: the interior splits on its first
/// `:` into a name and an optional fallback; a bound name gives its value,
/// an unbound one the fallback when present and the empty string otherwise.
pub open spec fn replacement(
    interior: Seq<char>,
    env: Seq<(Seq<char>, Seq<char>)>,
) -> Seq<char> {
    let k = find_char_idx(interior, ':');
    if k == -1 {
        match env_value(env, interior) {
            Some(v) => v,
            None => Seq::empty(),
        }
    } else {
        let name = interior.take(k);
        let fallback = interior.skip(k + 1);
        match env_value(env, name) {
            Some(v) => v,
            None => fallback,
        }
    }
}

/// One scanning step: `acc` is the text already emitted and `rest` the text
/// still to scan.
pub open spec fn subst_step(
    acc: Seq<char>,
    rest: Seq<char>,
    env: Seq<(Seq<char>, Seq<char>)>,
) -> Seq<char>
    decreases rest.len(), 1int,
{
    if rest.len() == 0 {
        acc
    } else if !is_marker_at(rest, 0) {
        subst_step(acc.push(rest[0]), rest.drop_first(), env)
    } else {
        let tail = rest.skip(2);
        if acc.len() >= 2 && acc[acc.len() - 1] == '\\' && acc[acc.len() - 2] == '\\' {
            subst_marker(acc.drop_last(), tail, env)
        } else if acc.len() >= 1 && acc[acc.len() - 1] == '\\' {
            subst_step(acc.drop_last() + marker_seq(), tail, env)
        } else {
            subst_marker(acc, tail, env)
        }
    }
}

/// Handles the text after a marker that is being substituted: `tail` is what
/// follows the `${` characters.
pub open spec fn subst_marker(
    acc: Seq<char>,
    tail: Seq<char>,
    env: Seq<(Seq<char>, Seq<char>)>,
) -> Seq<char>
    decreases tail.len(), 0int,
    via subst_marker_decreases
{
    let j = find_char_idx(tail, '}');
    if j == -1 {
        acc + marker_seq() + tail
    } else {
        subst_step(acc + replacement(tail.take(j), env), tail.skip(j + 1), env)
    }
}

#[via_fn]
proof fn subst_marker_decreases(
    acc: Seq<char>,
    tail: Seq<char>,
    env: Seq<(Seq<char>, Seq<char>)>,
) {
    lemma_find_char_idx(tail, '}');
}

/// The fully interpolated form of `s` under the bindings `env`.
pub open spec fn subst_text(s: Seq<char>, env: Seq<(Seq<char>, Seq<char>)>) -> Seq<char> {
    subst_step(Seq::empty(), s, env)
}

/// Scanning a stretch with no marker only copies it into the accumulator.
proof fn lemma_subst_step_segment(
    acc: Seq<char>,
    rest: Seq<char>,
    env: Seq<(Seq<char>, Seq<char>)>,
    i: int,
)
    requires
        0 <= i <= rest.len(),
        forall|j: int| 0 <= j < i ==> !is_marker_at(rest, j),
    ensures
        subst_step(acc, rest, env) == subst_step(acc + rest.take(i), rest.skip(i), env),
    decreases i,
{
    if i == 0 {
        assert(acc + rest.take(0) =~= acc);
        assert(rest.skip(0) =~= rest);
    } else {
        assert(!is_marker_at(rest, 0));
        let rest1 = rest.drop_first();
        assert forall|j: int| 0 <= j < i - 1 implies !is_marker_at(rest1, j) by {
            assert(!is_marker_at(rest, j + 1));
            if is_marker_at(rest1, j) {
                assert(rest1[j] == rest[j + 1]);
                assert(rest1[j + 1] == rest[j + 2]);
            }
        }
        lemma_subst_step_segment(acc.push(rest[0]), rest1, env, i - 1);
        assert(acc.push(rest[0]) + rest1.take(i - 1) =~= acc + rest.take(i));
        assert(rest1.skip(i - 1) =~= rest.skip(i));
    }
}

/// Scanning text with no marker at all appends it unchanged.
proof fn lemma_subst_step_no_marker(
    acc: Seq<char>,
    rest: Seq<char>,
    env: Seq<(Seq<char>, Seq<char>)>,
)
    requires
        forall|j: int| !is_marker_at(rest, j),
    ensures
        subst_step(acc, rest, env) == acc + rest,
    decreases rest.len(),
{
    if rest.len() == 0 {
        assert(acc + rest =~= acc);
    } else {
        assert(!is_marker_at(rest, 0));
        let rest1 = rest.drop_first();
        assert forall|j: int| !is_marker_at(rest1, j) by {
            assert(!is_marker_at(rest, j + 1));
            if is_marker_at(rest1, j) {
                assert(rest1[j] == rest[j + 1]);
                assert(rest1[j + 1] == rest[j + 2]);
            }
        }
        lemma_subst_step_no_marker(acc.push(rest[0]), rest1, env);
        assert(acc.push(rest[0]) + rest1 =~= acc + rest);
    }
}

/// On a string with no `${` anywhere, substitution is the identity, whatever
/// the environment holds.
pub proof fn lemma_marker_free_identity(s: Seq<char>, env: Seq<(Seq<char>, Seq<char>)>)
    requires
        marker_free(s),
    ensures
        subst_text(s, env) == s,
{
    lemma_subst_step_no_marker(Seq::empty(), s, env);
    assert(Seq::<char>::empty() + s =~= s);
}

/// The first marker position at or after `from`, if any.
fn find_marker(s: &str, from: usize) -> (r: Option<usize>)
    requires
        from <= s@.len(),
    ensures
        match r {
            Some(i) => {
                &&& from <= i
                &&& is_marker_at(s@, i as int)
                &&& forall|j: int| from <= j < i ==> !is_marker_at(s@, j)
            },
            None => forall|j: int| from <= j ==> !is_marker_at(s@, j),
        },
{
    let n = s.unicode_len();
    if n < 2 {
        return None;
    }
    let mut i: usize = from;
    while i < n - 1
        invariant
            from <= i,
            n == s@.len(),
            2 <= n,
            forall|j: int| from <= j < i ==> !is_marker_at(s@, j),
        decreases n - i,
    {
        if s.get_char(i) == '$' && s.get_char(i + 1) == '{' {
            return Some(i);
        }
        i += 1;
    }
    None
}

/// Runs the scanner on `rest` with `acc` already emitted.
fn subst_step_exec(acc: String, rest: &str, env: &EnvMap) -> (out: String)
    ensures
        out@ == subst_step(acc@, rest@, env@),
    decreases rest@.len(), 1int,
{
    let rn = rest.unicode_len();
    match find_marker(rest, 0) {
        None => {
            proof {
                lemma_subst_step_no_marker(acc@, rest@, env@);
            }
            acc.concat(rest)
        },
        Some(i) => {
            let mut acc2 = acc;
            acc2.append(rest.substring_char(0, i));
            proof {
                lemma_subst_step_segment(acc@, rest@, env@, i as int);
                assert(rest@.subrange(0, i as int) =~= rest@.take(i as int));
            }
            let ghost rest_m = rest@.skip(i as int);
            proof {
                assert(is_marker_at(rest_m, 0)) by {
                    assert(rest_m[0] == rest@[i as int]);
                    assert(rest_m[1] == rest@[i as int + 1]);
                }
            }
            let tail = rest.substring_char(i + 2, rn);
            proof {
                assert(tail@ =~= rest_m.skip(2));
            }
            let an = acc2.unicode_len();
            let last_bs = an >= 1 && acc2.as_str().get_char(an - 1) == '\\';
            let prev_bs = an >= 2 && acc2.as_str().get_char(an - 2) == '\\';
            if last_bs && prev_bs {
                let popped = String::from_str(acc2.as_str().substring_char(0, an - 1));
                proof {
                    assert(popped@ =~= acc2@.drop_last());
                }
                subst_marker_exec(popped, tail, env)
            } else if last_bs {
                let mut acc3 = String::from_str(acc2.as_str().substring_char(0, an - 1));
                acc3.append("${");
                proof {
                    reveal_strlit("${");
                    assert(acc3@ =~= acc2@.drop_last() + marker_seq());
                }
                subst_step_exec(acc3, tail, env)
            } else {
                subst_marker_exec(acc2, tail, env)
            }
        },
    }
}

/// Substitutes the marker whose `${` has just been consumed; `tail` is the
/// text after it.
fn subst_marker_exec(acc: String, tail: &str, env: &EnvMap) -> (out: String)
    ensures
        out@ == subst_marker(acc@, tail@, env@),
    decreases tail@.len(), 0int,
{
    let tn = tail.unicode_len();
    match find_char(tail, '}') {
        None => {
            let mut out = acc;
            out.append("${");
            proof {
                reveal_strlit("${");
                assert(out@ =~= acc@ + marker_seq());
            }
            out.concat(tail)
        },
        Some(j) => {
            proof {
                lemma_find_char_idx(tail@, '}');
            }
            let interior = tail.substring_char(0, j);
            let rest2 = tail.substring_char(j + 1, tn);
            proof {
                assert(interior@ =~= tail@.take(j as int));
                assert(rest2@ =~= tail@.skip(j as int + 1));
            }
            let mut acc2 = acc;
            match find_char(interior, ':') {
                None => {
                    match env.lookup(interior) {
                        Some(v) => {
                            acc2.append(v.as_str());
                        },
                        None => {
                            proof {
                                assert(acc2@ =~= acc2@ + Seq::<char>::empty());
                            }
                        },
                    }
                },
                Some(k) => {
                    proof {
                        lemma_find_char_idx(interior@, ':');
                    }
                    let jn = interior.unicode_len();
                    let name = interior.substring_char(0, k);
                    let fallback = interior.substring_char(k + 1, jn);
                    proof {
                        assert(name@ =~= interior@.take(k as int));
                        assert(fallback@ =~= interior@.skip(k as int + 1));
                    }
                    match env.lookup(name) {
                        Some(v) => {
                            acc2.append(v.as_str());
                        },
                        None => {
                            acc2.append(fallback);
                        },
                    }
                },
            }
            proof {
                assert(acc2@ == acc@ + replacement(tail@.take(j as int), env@));
            }
            subst_step_exec(acc2, rest2, env)
        },
    }
}

/// Interpolates every marker of `s` against the bindings `env`, with the
/// escape rules described at the top of this module.
pub fn substitute(s: &str, env: &EnvMap) -> (out: String)
    ensures
        out@ == subst_text(s@, env@),
{
    subst_step_exec(String::new(), s, env)
}

} // verus!
