//! Filling fragment holes in a rewritten template.
//!
//! The scanner emits a template whose literal braces are doubled and
//! whose fragment markers became `{}` holes. Rendering undoes the
//! doubling and fills each hole, left to right, with the next resolved
//! fragment text. A template with a lone brace, a hole beyond the last
//! value, or values left over is malformed and yields nothing — the
//! resolver's `substitute` flag says when the counts are known to match.

use crate::bytes::{LBRACE, RBRACE};
use crate::names::name_views;
use vstd::prelude::*;

verus! {

/// Prefixes `p` onto a substitution result, keeping failure.
pub open spec fn prepend_opt(p: Seq<u8>, r: Option<Seq<u8>>) -> Option<Seq<u8>> {
    match r {
        Some(x) => Some(p + x),
        None => None,
    }
}

/// Hole filling from position `i` with the values from position `vi` on:
/// `{{` emits `{`, `}}` emits `}`, `{}` consumes the next value, any
/// other byte is copied. A lone brace, a hole with no value left, or a
/// value left over at the end is malformed.
pub open spec fn subst_from(t: Seq<u8>, i: int, vals: Seq<Seq<u8>>, vi: int) -> Option<Seq<u8>>
    decreases t.len() - i,
{
    if i < 0 || vi < 0 {
        None
    } else if i >= t.len() {
        if vi == vals.len() {
            Some(Seq::empty())
        } else {
            None
        }
    } else if t[i] == LBRACE {
        if i + 2 <= t.len() && t[i + 1] == LBRACE {
            prepend_opt(seq![LBRACE], subst_from(t, i + 2, vals, vi))
        } else if i + 2 <= t.len() && t[i + 1] == RBRACE {
            if vi < vals.len() {
                prepend_opt(vals[vi], subst_from(t, i + 2, vals, vi + 1))
            } else {
                None
            }
        } else {
            None
        }
    } else if t[i] == RBRACE {
        if i + 2 <= t.len() && t[i + 1] == RBRACE {
            prepend_opt(seq![RBRACE], subst_from(t, i + 2, vals, vi))
        } else {
            None
        }
    } else {
        prepend_opt(seq![t[i]], subst_from(t, i + 1, vals, vi))
    }
}

/// The rendered template, when `t`'s holes and `vals` line up.
pub open spec fn subst_spec(t: Seq<u8>, vals: Seq<Seq<u8>>) -> Option<Seq<u8>> {
    subst_from(t, 0, vals, 0)
}

proof fn lemma_prepend_assoc(a: Seq<u8>, p: Seq<u8>, r: Option<Seq<u8>>)
    ensures
        prepend_opt(a, prepend_opt(p, r)) == prepend_opt(a + p, r),
{
    match r {
        Some(x) => {
            assert(a + (p + x) =~= (a + p) + x);
        },
        None => {},
    }
}

/// Appends a copy of `src`.
fn append_bytes(out: &mut Vec<u8>, src: &Vec<u8>)
    ensures
        final(out)@ == old(out)@ + src@,
{
    let mut k: usize = 0;
    while k < src.len()
        invariant
            k <= src@.len(),
            out@ == old(out)@ + src@.take(k as int),
        decreases src@.len() - k,
    {
        out.push(src[k]);
        proof {
            assert(out@ =~= old(out)@ + src@.take(k as int + 1));
        }
        k = k + 1;
    }
    proof {
        assert(src@.take(src@.len() as int) =~= src@);
    }
}

/// Fills the `{}` holes of `template` with `values`, in order, undoing
/// the brace doubling; `None` when the template is malformed or the
/// value count does not equal the hole count.
pub fn substitute(template: &Vec<u8>, values: &Vec<Vec<u8>>) -> (r: Option<Vec<u8>>)
    ensures
        (match r {
            Some(v) => subst_spec(template@, name_views(values@)) == Some(v@),
            None => subst_spec(template@, name_views(values@)) is None,
        }),
{
    let ghost t = template@;
    let ghost vals = name_views(values@);
    let n = template.len();
    let mut out: Vec<u8> = Vec::new();
    let mut i: usize = 0;
    let mut vi: usize = 0;
    while i < n
        invariant
            n == t.len(),
            t == template@,
            vals == name_views(values@),
            i <= n,
            vi <= vals.len(),
            subst_spec(t, vals) == prepend_opt(out@, subst_from(t, i as int, vals, vi as int)),
        decreases n - i,
    {
        let ghost out0 = out@;
        let ghost i0 = i as int;
        let ghost vi0 = vi as int;
        let b = template[i];
        if b == LBRACE {
            if i + 1 < n && template[i + 1] == LBRACE {
                out.push(LBRACE);
                i = i + 2;
                proof {
                    assert(out@ =~= out0 + seq![LBRACE]);
                    lemma_prepend_assoc(out0, seq![LBRACE], subst_from(t, i0 + 2, vals, vi0));
                }
            } else if i + 1 < n && template[i + 1] == RBRACE {
                if vi < values.len() {
                    append_bytes(&mut out, &values[vi]);
                    proof {
                        lemma_prepend_assoc(out0, vals[vi0], subst_from(t, i0 + 2, vals, vi0 + 1));
                    }
                    vi = vi + 1;
                    i = i + 2;
                } else {
                    return None;
                }
            } else {
                return None;
            }
        } else if b == RBRACE {
            if i + 1 < n && template[i + 1] == RBRACE {
                out.push(RBRACE);
                i = i + 2;
                proof {
                    assert(out@ =~= out0 + seq![RBRACE]);
                    lemma_prepend_assoc(out0, seq![RBRACE], subst_from(t, i0 + 2, vals, vi0));
                }
            } else {
                return None;
            }
        } else {
            out.push(b);
            i = i + 1;
            proof {
                assert(out@ =~= out0 + seq![t[i0]]);
                lemma_prepend_assoc(out0, seq![t[i0]], subst_from(t, i0 + 1, vals, vi0));
            }
        }
    }
    if vi == values.len() {
        proof {
            assert(out@ + Seq::<u8>::empty() =~= out@);
        }
        Some(out)
    } else {
        None
    }
}

} // verus!
