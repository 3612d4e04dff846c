//! The guarantees that relate the library's functions to one another.
//!
//! Each proof function here states one law over the spec functions that
//! the executable functions' contracts are written in, so a caller can
//! carry the law over to the values those functions return.

use crate::bytes::{DOLLAR, LBRACE, LBRACKET, RBRACE, RBRACKET};
use crate::diag::Diag;
use crate::names::{insert_name, lemma_insert_name_extends, lemma_name_index, name_index};
use crate::resolver::{
    args_role, last_role_index, match_from, resolved_fragments, resolved_params, sql_role,
    RecordView,
};
use crate::runs::{comma_end, group_end, ident_end, rtrim_end, skip_spaces};
use crate::render::{subst_from, subst_spec};
use crate::scanner::{
    dec_rep, dotdot, empty_entry_diags, escape_braces, escape_byte, frag_hole, group_pieces,
    init_state, marker_of, scan_from, scan_spec, ScanState,
};
use vstd::prelude::*;

verus! {

broadcast use
    {
    crate::runs::lemma_ident_end_bounds,
    crate::runs::lemma_group_end_bounds,
    crate::runs::lemma_comma_end_bounds,
    crate::runs::lemma_skip_spaces_bounds,
    crate::runs::lemma_rtrim_end_bounds,
};

/// No name occurs twice.
pub open spec fn distinct_names(ns: Seq<Seq<u8>>) -> bool {
    forall|a: int, b: int| 0 <= a < b < ns.len() ==> ns[a] != ns[b]
}

/// Interning keeps a distinct name list distinct.
pub proof fn lemma_insert_name_distinct(names: Seq<Seq<u8>>, x: Seq<u8>)
    requires
        distinct_names(names),
    ensures
        distinct_names(insert_name(names, x)),
{
    lemma_name_index(names, x);
    let i = name_index(names, x);
    if i >= names.len() {
        let ns = insert_name(names, x);
        assert forall|a: int, b: int| 0 <= a < b < ns.len() implies ns[a] != ns[b] by {
            if b == names.len() {
                assert(names[a] != x);
            }
        }
    }
}

/// Folding a column-list region keeps the name list distinct, keeps
/// every already-interned name at its position, and never shrinks it.
pub proof fn lemma_group_pieces_distinct(s: Seq<u8>, i: int, end: int, names: Seq<Seq<u8>>)
    requires
        0 <= i <= end <= s.len(),
        distinct_names(names),
    ensures
        ({
            let gf = group_pieces(s, i, end, names);
            &&& distinct_names(gf.names)
            &&& names.len() <= gf.names.len()
            &&& forall|k: int| 0 <= k < names.len() ==> gf.names[k] == names[k]
        }),
    decreases end - i,
{
    let c = comma_end(s, i, end);
    let lo = skip_spaces(s, i, c);
    let hi = rtrim_end(s, lo, c);
    let piece = s.subrange(lo, hi);
    let names1 = if piece.len() != 0 {
        insert_name(names, piece)
    } else {
        names
    };
    if piece.len() != 0 {
        lemma_insert_name_distinct(names, piece);
        lemma_insert_name_extends(names, piece);
    }
    if c < end {
        lemma_group_pieces_distinct(s, c + 1, end, names1);
    }
}

/// The one induction over the scan: starting from an unaborted state
/// with a distinct name list,
/// - the name list stays distinct and only grows, every name keeping the
///   position its first occurrence assigned (so a recurring name is
///   rewritten to the same positional marker everywhere); and
/// - if the scan ends unaborted with a group still pending, the last
///   diagnostic reports that the last group was not used.
pub proof fn lemma_scan_from_invariants(s: Seq<u8>, i: int, st: ScanState)
    requires
        distinct_names(st.names),
        !st.aborted,
    ensures
        ({
            let r = scan_from(s, i, st);
            &&& distinct_names(r.names)
            &&& st.names.len() <= r.names.len()
            &&& forall|k: int| 0 <= k < st.names.len() ==> r.names[k] == st.names[k]
            &&& (!r.aborted && r.pending is Some ==> r.diags.len() > 0 && r.diags.last()
                == Diag::LastGroupUnused)
        }),
    decreases s.len() - i,
{
    if i < 0 || i >= s.len() {
        // finish_state: names unchanged; a pending group is reported last
    } else if s[i] != DOLLAR {
        lemma_scan_from_invariants(s, i + 1, ScanState { out: st.out.push(s[i]), ..st });
    } else {
        let j = i + 1;
        if j + 2 <= s.len() && s[j] == LBRACE && s[j + 1] == LBRACE {
            let k = j + 2;
            let e = ident_end(s, k);
            if e == k {
                // abort: names unchanged, r.aborted
            } else {
                let ident = s.subrange(k, e);
                let closed = e + 2 <= s.len() && s[e] == RBRACE && s[e + 1] == RBRACE;
                let cont = if closed {
                    e + 2
                } else {
                    e
                };
                let diags1 = if closed {
                    st.diags
                } else {
                    st.diags.push(Diag::FragmentUnterminated)
                };
                lemma_scan_from_invariants(
                    s,
                    cont,
                    ScanState {
                        out: st.out + frag_hole(),
                        frags: st.frags.push(ident),
                        diags: diags1,
                        ..st
                    },
                );
            }
        } else {
            let e = ident_end(s, j);
            if e > j {
                let ident = s.subrange(j, e);
                lemma_insert_name_distinct(st.names, ident);
                lemma_insert_name_extends(st.names, ident);
                lemma_scan_from_invariants(
                    s,
                    e,
                    ScanState {
                        out: st.out + marker_of(name_index(st.names, ident)),
                        names: insert_name(st.names, ident),
                        ..st
                    },
                );
            } else if !(j < s.len() && s[j] == LBRACKET) {
                // abort
            } else {
                let g = j + 1;
                let ge = group_end(s, g);
                if !(ge < s.len() && s[ge] == RBRACKET) {
                    // abort
                } else {
                    let columns = s.subrange(g, ge);
                    let cont = ge + 1;
                    if columns == dotdot() {
                        if st.pending is Some {
                            lemma_scan_from_invariants(
                                s,
                                cont,
                                ScanState {
                                    out: st.out + st.pending.unwrap(),
                                    pending: None,
                                    ..st
                                },
                            );
                        } else {
                            lemma_scan_from_invariants(
                                s,
                                cont,
                                ScanState {
                                    diags: st.diags.push(Diag::GroupUsedNotDefined),
                                    ..st
                                },
                            );
                        }
                    } else {
                        let gf = group_pieces(s, g, ge, st.names);
                        lemma_group_pieces_distinct(s, g, ge, st.names);
                        let dup: Seq<Diag> = if st.pending is Some {
                            seq![Diag::PreviousGroupUnused]
                        } else {
                            Seq::empty()
                        };
                        lemma_scan_from_invariants(
                            s,
                            cont,
                            ScanState {
                                out: st.out + columns,
                                names: gf.names,
                                diags: st.diags + empty_entry_diags(gf.errs) + dup,
                                pending: Some(gf.markers),
                                ..st
                            },
                        );
                    }
                }
            }
        }
    }
}

/// For any template, the emitted name list holds each referenced name
/// exactly once, in first-occurrence order: no two entries are equal,
/// and (by `lemma_scan_from_invariants`) a name's position never changes
/// once assigned, so every later occurrence is rewritten to the same
/// positional marker.
pub proof fn lemma_scan_names_distinct(template: Seq<u8>)
    ensures
        distinct_names(scan_spec(template).names),
{
    lemma_scan_from_invariants(escape_braces(template), 0, init_state());
}

/// A group defined but never consumed is reported: when a scan runs to
/// the end of its input with a group still pending, its very last
/// diagnostic is that the last parameter group is not used.
pub proof fn lemma_last_group_reported(template: Seq<u8>)
    ensures
        ({
            let r = scan_spec(template);
            !r.aborted && r.pending is Some ==> r.diags.len() > 0 && r.diags.last()
                == Diag::LastGroupUnused
        }),
{
    lemma_scan_from_invariants(escape_braces(template), 0, init_state());
}

/// Scanning is a pure function of the template text: two results that
/// satisfy `scan`'s contract for the same input are the same, so
/// scanning a template twice yields identical output and diagnostics.
pub proof fn lemma_scan_deterministic(template: Seq<u8>, a: ScanState, b: ScanState)
    requires
        a == scan_spec(template),
        b == scan_spec(template),
    ensures
        a == b,
{
}

/// How a key list matches a field list: the match is never longer than
/// the key list; it is complete exactly when every key occurs among the
/// fields; and a complete match sends key `t` to its own field position.
pub proof fn lemma_match_from_props(keys: Seq<Seq<u8>>, i: int, fields: Seq<Seq<u8>>)
    requires
        0 <= i <= keys.len(),
    ensures
        ({
            let m = match_from(keys, i, fields);
            &&& m.len() <= keys.len() - i
            &&& (m.len() == keys.len() - i <==> (forall|t: int|
                i <= t < keys.len() ==> name_index(fields, keys[t]) < fields.len()))
            &&& (m.len() == keys.len() - i ==> (forall|t: int|
                i <= t < keys.len() ==> m[t - i] == name_index(fields, keys[t])))
        }),
    decreases keys.len() - i,
{
    if i < keys.len() {
        lemma_match_from_props(keys, i + 1, fields);
        lemma_name_index(fields, keys[i]);
    }
}

/// The output ordering law: when the `Args` record binds every scanned
/// name, the resolved argument positions line up one-to-one with the
/// names — entry `t` (backing positional marker `$t+1`) is exactly the
/// field position of name `t` in the record.
pub proof fn lemma_args_alignment(rs: Seq<RecordView>, names: Seq<Seq<u8>>)
    requires
        last_role_index(rs, args_role()) >= 0,
        forall|t: int|
            0 <= t < names.len() ==> name_index(
                rs[last_role_index(rs, args_role())].fields,
                names[t],
            ) < rs[last_role_index(rs, args_role())].fields.len(),
    ensures
        resolved_params(rs, names).len() == names.len(),
        forall|t: int|
            0 <= t < names.len() ==> resolved_params(rs, names)[t] == name_index(
                rs[last_role_index(rs, args_role())].fields,
                names[t],
            ),
{
    lemma_match_from_props(names, 0, rs[last_role_index(rs, args_role())].fields);
}

/// Fragment occurrences resolve independently, in occurrence order: when
/// the `Sql` record binds every occurrence, occurrence `t` resolves to
/// the field position of its own name — so two occurrences of the same
/// name resolve to the same field, each consuming one slot in order —
/// and the resolved count equals the occurrence count exactly when every
/// occurrence is bound (otherwise rendering is to be skipped).
pub proof fn lemma_fragments_independent(rs: Seq<RecordView>, frags: Seq<Seq<u8>>)
    requires
        last_role_index(rs, sql_role()) >= 0,
    ensures
        ({
            let fields = rs[last_role_index(rs, sql_role())].fields;
            let m = resolved_fragments(rs, frags);
            &&& (m.len() == frags.len() <==> (forall|t: int|
                0 <= t < frags.len() ==> name_index(fields, frags[t]) < fields.len()))
            &&& (m.len() == frags.len() ==> (forall|t: int|
                0 <= t < frags.len() ==> m[t] == name_index(fields, frags[t])))
            &&& (m.len() == frags.len() ==> (forall|t1: int, t2: int|
                0 <= t1 < frags.len() && 0 <= t2 < frags.len() && frags[t1] == frags[t2] ==> m[t1]
                    == m[t2]))
        }),
{
    lemma_match_from_props(frags, 0, rs[last_role_index(rs, sql_role())].fields);
}

// ---------------------------------------------------------------------------
// Rendering never fails on the scanner's own output
// ---------------------------------------------------------------------------
/// No brace anywhere.
pub open spec fn plain(t: Seq<u8>) -> bool {
    forall|k: int| 0 <= k < t.len() ==> t[k] != LBRACE && t[k] != RBRACE
}

/// The number of `{}` holes of `t` from `i` on, when `t` parses as brace
/// pairs, holes and plain bytes; `None` when a lone brace makes it
/// malformed.
pub open spec fn hole_count(t: Seq<u8>, i: int) -> Option<nat>
    decreases t.len() - i,
{
    if i < 0 {
        None
    } else if i >= t.len() {
        Some(0nat)
    } else if t[i] == LBRACE {
        if i + 2 <= t.len() && t[i + 1] == LBRACE {
            hole_count(t, i + 2)
        } else if i + 2 <= t.len() && t[i + 1] == RBRACE {
            match hole_count(t, i + 2) {
                Some(k) => Some(k + 1),
                None => None,
            }
        } else {
            None
        }
    } else if t[i] == RBRACE {
        if i + 2 <= t.len() && t[i + 1] == RBRACE {
            hole_count(t, i + 2)
        } else {
            None
        }
    } else {
        hole_count(t, i + 1)
    }
}

/// Substitution succeeds exactly when the template is well formed and
/// the values left equal the holes left.
proof fn lemma_subst_some_iff(t: Seq<u8>, i: int, vals: Seq<Seq<u8>>, vi: int)
    requires
        0 <= i,
        0 <= vi <= vals.len(),
    ensures
        (subst_from(t, i, vals, vi) is Some) <==> hole_count(t, i) == Some(
            (vals.len() - vi) as nat,
        ),
    decreases t.len() - i,
{
    if i >= t.len() {
    } else if t[i] == LBRACE {
        if i + 2 <= t.len() && t[i + 1] == LBRACE {
            lemma_subst_some_iff(t, i + 2, vals, vi);
        } else if i + 2 <= t.len() && t[i + 1] == RBRACE {
            if vi < vals.len() {
                lemma_subst_some_iff(t, i + 2, vals, vi + 1);
            }
        }
    } else if t[i] == RBRACE {
        if i + 2 <= t.len() && t[i + 1] == RBRACE {
            lemma_subst_some_iff(t, i + 2, vals, vi);
        }
    } else {
        lemma_subst_some_iff(t, i + 1, vals, vi);
    }
}

proof fn lemma_hole_count_shift(a: Seq<u8>, b: Seq<u8>, j: int)
    requires
        0 <= j,
    ensures
        hole_count(a + b, a.len() + j) == hole_count(b, j),
    decreases b.len() - j,
{
    if j < b.len() {
        assert((a + b)[a.len() + j] == b[j]);
        if j + 1 < b.len() {
            assert((a + b)[a.len() + j + 1] == b[j + 1]);
        }
        if b[j] == LBRACE || b[j] == RBRACE {
            if j + 2 <= b.len() {
                lemma_hole_count_shift(a, b, j + 2);
            }
        } else {
            lemma_hole_count_shift(a, b, j + 1);
        }
    }
}

proof fn lemma_hole_count_concat(a: Seq<u8>, b: Seq<u8>, i: int)
    requires
        0 <= i <= a.len(),
        hole_count(a, i) is Some,
        hole_count(b, 0) is Some,
    ensures
        hole_count(a + b, i) == Some(
            (hole_count(a, i).unwrap() + hole_count(b, 0).unwrap()) as nat,
        ),
    decreases a.len() - i,
{
    if i == a.len() {
        lemma_hole_count_shift(a, b, 0);
    } else {
        assert((a + b)[i] == a[i]);
        if a[i] == LBRACE || a[i] == RBRACE {
            assert((a + b)[i + 1] == a[i + 1]);
            lemma_hole_count_concat(a, b, i + 2);
        } else {
            lemma_hole_count_concat(a, b, i + 1);
        }
    }
}

proof fn lemma_hole_count_plain(t: Seq<u8>, i: int)
    requires
        0 <= i,
        plain(t),
    ensures
        hole_count(t, i) == Some(0nat),
    decreases t.len() - i,
{
    if i < t.len() {
        lemma_hole_count_plain(t, i + 1);
    }
}

proof fn lemma_dec_rep_plain(n: nat)
    ensures
        plain(dec_rep(n)),
    decreases n,
{
    if n >= 10 {
        lemma_dec_rep_plain(n / 10);
    }
}

proof fn lemma_marker_plain(idx: int)
    ensures
        plain(marker_of(idx)),
{
    lemma_dec_rep_plain((idx + 1) as nat);
}

proof fn lemma_group_pieces_plain(s: Seq<u8>, i: int, end: int, names: Seq<Seq<u8>>)
    requires
        0 <= i <= end <= s.len(),
    ensures
        plain(group_pieces(s, i, end, names).markers),
    decreases end - i,
{
    let c = comma_end(s, i, end);
    let lo = skip_spaces(s, i, c);
    let hi = rtrim_end(s, lo, c);
    let piece = s.subrange(lo, hi);
    if piece.len() != 0 {
        lemma_marker_plain(name_index(names, piece));
    }
    let names1 = if piece.len() != 0 {
        insert_name(names, piece)
    } else {
        names
    };
    if c < end {
        lemma_group_pieces_plain(s, c + 1, end, names1);
    }
}

/// Every brace of `s` from `i` on stands doubled, as the pre-escaping
/// guarantees of its output.
pub open spec fn paired(s: Seq<u8>, i: int) -> bool
    decreases s.len() - i,
{
    if i < 0 {
        false
    } else if i >= s.len() {
        true
    } else if s[i] == LBRACE {
        i + 2 <= s.len() && s[i + 1] == LBRACE && paired(s, i + 2)
    } else if s[i] == RBRACE {
        i + 2 <= s.len() && s[i + 1] == RBRACE && paired(s, i + 2)
    } else {
        paired(s, i + 1)
    }
}

proof fn lemma_paired_shift(a: Seq<u8>, b: Seq<u8>, j: int)
    requires
        0 <= j,
    ensures
        paired(a + b, a.len() + j) == paired(b, j),
    decreases b.len() - j,
{
    if j < b.len() {
        assert((a + b)[a.len() + j] == b[j]);
        if j + 1 < b.len() {
            assert((a + b)[a.len() + j + 1] == b[j + 1]);
        }
        if b[j] == LBRACE || b[j] == RBRACE {
            if j + 2 <= b.len() {
                lemma_paired_shift(a, b, j + 2);
            }
        } else {
            lemma_paired_shift(a, b, j + 1);
        }
    }
}

proof fn lemma_paired_append(a: Seq<u8>, b: Seq<u8>, i: int)
    requires
        0 <= i <= a.len(),
        paired(a, i),
        paired(b, 0),
    ensures
        paired(a + b, i),
    decreases a.len() - i,
{
    if i == a.len() {
        lemma_paired_shift(a, b, 0);
    } else {
        assert((a + b)[i] == a[i]);
        if a[i] == LBRACE || a[i] == RBRACE {
            assert((a + b)[i + 1] == a[i + 1]);
            lemma_paired_append(a, b, i + 2);
        } else {
            lemma_paired_append(a, b, i + 1);
        }
    }
}

/// Pre-escaping leaves every brace doubled.
proof fn lemma_paired_escape(t: Seq<u8>)
    ensures
        paired(escape_braces(t), 0),
    decreases t.len(),
{
    if t.len() > 0 {
        lemma_paired_escape(t.drop_last());
        let eb = escape_byte(t.last());
        assert(paired(eb, 0)) by {
            assert(paired(eb, eb.len() as int));
            if t.last() == LBRACE || t.last() == RBRACE {
                assert(paired(eb, 2));
            } else {
                assert(paired(eb, 1));
            }
        }
        lemma_paired_append(escape_braces(t.drop_last()), eb, 0);
    }
}

proof fn lemma_paired_run(s: Seq<u8>, x: int, y: int)
    requires
        0 <= x <= y <= s.len(),
        paired(s, x),
        forall|k: int| x <= k < y ==> s[k] != LBRACE && s[k] != RBRACE,
    ensures
        paired(s, y),
    decreases y - x,
{
    if x < y {
        lemma_paired_run(s, x + 1, y);
    }
}

/// The scan invariant behind renderability: from a brace-paired rest of
/// input, a well-formed output with one hole per fragment occurrence,
/// and a brace-free pending group, the scan ends with a well-formed
/// output whose hole count is its fragment occurrence count.
proof fn lemma_scan_from_holes(s: Seq<u8>, i: int, st: ScanState)
    requires
        0 <= i,
        paired(s, i),
        hole_count(st.out, 0) == Some(st.frags.len()),
        st.pending is Some ==> plain(st.pending.unwrap()),
    ensures
        ({
            let r = scan_from(s, i, st);
            hole_count(r.out, 0) == Some(r.frags.len())
        }),
    decreases s.len() - i,
{
    if i >= s.len() {
        // finish_state keeps the output and the fragment list
    } else if s[i] != DOLLAR {
        if s[i] == LBRACE || s[i] == RBRACE {
            // paired: the partner follows and is copied by the next step
            assert(i + 2 <= s.len() && s[i + 1] == s[i] && paired(s, i + 2));
            let st1 = ScanState { out: st.out.push(s[i]), ..st };
            let st2 = ScanState { out: st1.out.push(s[i + 1]), ..st1 };
            assert(scan_from(s, i, st) == scan_from(s, i + 1, st1));
            assert(scan_from(s, i + 1, st1) == scan_from(s, i + 2, st2));
            let pair = seq![s[i], s[i + 1]];
            assert(st2.out =~= st.out + pair);
            assert(hole_count(pair, 0) == Some(0nat)) by {
                assert(hole_count(pair, 2) == Some(0nat));
            }
            lemma_hole_count_concat(st.out, pair, 0);
            lemma_scan_from_holes(s, i + 2, st2);
        } else {
            assert(paired(s, i + 1));
            let st1 = ScanState { out: st.out.push(s[i]), ..st };
            let single = seq![s[i]];
            assert(st1.out =~= st.out + single);
            assert(hole_count(single, 0) == Some(0nat)) by {
                assert(hole_count(single, 1) == Some(0nat));
            }
            lemma_hole_count_concat(st.out, single, 0);
            lemma_scan_from_holes(s, i + 1, st1);
        }
    } else {
        let j = i + 1;
        assert(paired(s, j));
        if j + 2 <= s.len() && s[j] == LBRACE && s[j + 1] == LBRACE {
            let k = j + 2;
            assert(paired(s, k));
            let e = ident_end(s, k);
            if e == k {
                // abort keeps the output and the fragment list
            } else {
                crate::runs::lemma_ident_end_chars(s, k);
                assert(forall|x: int|
                    k <= x < e ==> s[x] != LBRACE && s[x] != RBRACE);
                lemma_paired_run(s, k, e);
                let ident = s.subrange(k, e);
                let closed = e + 2 <= s.len() && s[e] == RBRACE && s[e + 1] == RBRACE;
                let cont = if closed {
                    e + 2
                } else {
                    e
                };
                let diags1 = if closed {
                    st.diags
                } else {
                    st.diags.push(Diag::FragmentUnterminated)
                };
                assert(paired(s, cont));
                let st1 = ScanState {
                    out: st.out + frag_hole(),
                    frags: st.frags.push(ident),
                    diags: diags1,
                    ..st
                };
                assert(hole_count(frag_hole(), 0) == Some(1nat)) by {
                    assert(hole_count(frag_hole(), 2) == Some(0nat));
                }
                lemma_hole_count_concat(st.out, frag_hole(), 0);
                lemma_scan_from_holes(s, cont, st1);
            }
        } else {
            let e = ident_end(s, j);
            if e > j {
                crate::runs::lemma_ident_end_chars(s, j);
                assert(forall|x: int|
                    j <= x < e ==> s[x] != LBRACE && s[x] != RBRACE);
                lemma_paired_run(s, j, e);
                let ident = s.subrange(j, e);
                let m = marker_of(name_index(st.names, ident));
                lemma_marker_plain(name_index(st.names, ident));
                lemma_hole_count_plain(m, 0);
                lemma_hole_count_concat(st.out, m, 0);
                lemma_scan_from_holes(
                    s,
                    e,
                    ScanState { out: st.out + m, names: insert_name(st.names, ident), ..st },
                );
            } else if !(j < s.len() && s[j] == LBRACKET) {
                // abort keeps the output and the fragment list
            } else {
                let g = j + 1;
                let ge = group_end(s, g);
                if !(ge < s.len() && s[ge] == RBRACKET) {
                    // abort keeps the output and the fragment list
                } else {
                    assert(paired(s, g));
                    crate::runs::lemma_group_end_chars(s, g);
                    assert(forall|x: int|
                        g <= x < ge ==> s[x] != LBRACE && s[x] != RBRACE);
                    lemma_paired_run(s, g, ge);
                    let columns = s.subrange(g, ge);
                    let cont = ge + 1;
                    assert(paired(s, cont));
                    if columns == dotdot() {
                        if st.pending is Some {
                            let p = st.pending.unwrap();
                            lemma_hole_count_plain(p, 0);
                            lemma_hole_count_concat(st.out, p, 0);
                            lemma_scan_from_holes(
                                s,
                                cont,
                                ScanState { out: st.out + p, pending: None, ..st },
                            );
                        } else {
                            lemma_scan_from_holes(
                                s,
                                cont,
                                ScanState {
                                    diags: st.diags.push(Diag::GroupUsedNotDefined),
                                    ..st
                                },
                            );
                        }
                    } else {
                        let gf = group_pieces(s, g, ge, st.names);
                        lemma_group_pieces_plain(s, g, ge, st.names);
                        assert(plain(columns));
                        lemma_hole_count_plain(columns, 0);
                        lemma_hole_count_concat(st.out, columns, 0);
                        let dup: Seq<Diag> = if st.pending is Some {
                            seq![Diag::PreviousGroupUnused]
                        } else {
                            Seq::empty()
                        };
                        lemma_scan_from_holes(
                            s,
                            cont,
                            ScanState {
                                out: st.out + columns,
                                names: gf.names,
                                diags: st.diags + empty_entry_diags(gf.errs) + dup,
                                pending: Some(gf.markers),
                                ..st
                            },
                        );
                    }
                }
            }
        }
    }
}

/// Rendering never fails on the scanner's own output: filling the holes
/// of the rewritten template succeeds for a value list of exactly one
/// value per fragment occurrence, and fails for any other length — the
/// resolver's `substitute` gate is exactly the success condition. This
/// holds for aborted scans too: the partial template is well formed.
pub proof fn lemma_scan_output_renders(template: Seq<u8>, vals: Seq<Seq<u8>>)
    ensures
        ({
            let r = scan_spec(template);
            (subst_spec(r.out, vals) is Some) <==> vals.len() == r.frags.len()
        }),
{
    lemma_paired_escape(template);
    assert(hole_count(init_state().out, 0) == Some(0nat));
    lemma_scan_from_holes(escape_braces(template), 0, init_state());
    let r = scan_spec(template);
    lemma_subst_some_iff(r.out, 0, vals, 0);
}

} // verus!
