//! The template scanner/rewriter.

use crate::bytes::{COMMA, DIGIT_ZERO, DOLLAR, DOT, LBRACE, LBRACKET, RBRACE, RBRACKET, SPACE};
use crate::diag::Diag;
use crate::runs::{
    comma_end, find_comma, find_group_end, find_ident_end, find_rtrim, find_unpadded, group_end,
    ident_end, rtrim_end, skip_spaces,
};
use crate::names::{
    insert_name, intern_name, lemma_name_index, lemma_name_views_push, name_index, name_views,
};
use vstd::prelude::*;
use vstd::string::{StrSliceExecFns, StringSliceAdditionalSpecFns};

verus! {

broadcast use
    {
    crate::runs::lemma_ident_end_bounds,
    crate::runs::lemma_group_end_bounds,
    crate::runs::lemma_comma_end_bounds,
    crate::runs::lemma_skip_spaces_bounds,
    crate::runs::lemma_rtrim_end_bounds,
    lemma_name_views_push,
    lemma_name_index,
};

// ---------------------------------------------------------------------------
// Brace escaping
// ---------------------------------------------------------------------------
/// What one byte of the source template becomes before scanning: braces
/// are doubled because the rewritten template is later consumed by a
/// hole-filling pass that treats single braces as holes.
pub open spec fn escape_byte(b: u8) -> Seq<u8> {
    if b == LBRACE {
        seq![LBRACE, LBRACE]
    } else if b == RBRACE {
        seq![RBRACE, RBRACE]
    } else {
        seq![b]
    }
}

/// The template with every literal brace doubled.
pub open spec fn escape_braces(s: Seq<u8>) -> Seq<u8>
    decreases s.len(),
{
    if s.len() == 0 {
        Seq::empty()
    } else {
        escape_braces(s.drop_last()) + escape_byte(s.last())
    }
}

/// Doubles every brace of `s`.
pub fn escape_braces_exec(s: &Vec<u8>) -> (r: Vec<u8>)
    ensures
        r@ == escape_braces(s@),
{
    let mut out: Vec<u8> = Vec::new();
    let mut i: usize = 0;
    while i < s.len()
        invariant
            i <= s@.len(),
            out@ == escape_braces(s@.take(i as int)),
        decreases s@.len() - i,
    {
        let b = s[i];
        if b == LBRACE {
            out.push(LBRACE);
            out.push(LBRACE);
        } else if b == RBRACE {
            out.push(RBRACE);
            out.push(RBRACE);
        } else {
            out.push(b);
        }
        proof {
            let t = s@.take(i + 1);
            assert(t.drop_last() =~= s@.take(i as int));
            assert(out@ =~= escape_braces(s@.take(i as int)) + escape_byte(s@[i as int]));
        }
        i = i + 1;
    }
    proof {
        assert(s@.take(s@.len() as int) =~= s@);
    }
    out
}

// ---------------------------------------------------------------------------
// Positional markers
// ---------------------------------------------------------------------------
/// The decimal digits of `n`, most significant first.
pub open spec fn dec_rep(n: nat) -> Seq<u8>
    decreases n,
{
    if n < 10 {
        seq![(DIGIT_ZERO + n) as u8]
    } else {
        dec_rep(n / 10).push((DIGIT_ZERO + n % 10) as u8)
    }
}

/// The positional marker emitted for the parameter at position `idx` of
/// the name list: `$` followed by the decimal digits of `idx + 1`.
pub open spec fn marker_of(idx: int) -> Seq<u8> {
    seq![DOLLAR] + dec_rep((idx + 1) as nat)
}

/// Appends the decimal digits of `n`.
fn push_dec(out: &mut Vec<u8>, n: usize)
    ensures
        final(out)@ == old(out)@ + dec_rep(n as nat),
    decreases n,
{
    if n < 10 {
        out.push(DIGIT_ZERO + n as u8);
        proof {
            assert(out@ =~= old(out)@ + dec_rep(n as nat));
        }
    } else {
        push_dec(out, n / 10);
        out.push(DIGIT_ZERO + (n % 10) as u8);
        proof {
            assert(out@ =~= old(out)@ + dec_rep(n as nat));
        }
    }
}

/// The positional marker for the parameter at position `idx`.
fn marker_bytes(idx: usize) -> (r: Vec<u8>)
    requires
        idx < usize::MAX,
    ensures
        r@ == marker_of(idx as int),
{
    let mut out: Vec<u8> = Vec::new();
    out.push(DOLLAR);
    push_dec(&mut out, idx + 1);
    proof {
        assert(out@ =~= marker_of(idx as int));
    }
    out
}

/// Copies the bytes `[i, j)` of `s`.
fn copy_range(s: &Vec<u8>, i: usize, j: usize) -> (r: Vec<u8>)
    requires
        i <= j <= s@.len(),
    ensures
        r@ == s@.subrange(i as int, j as int),
{
    vstd::slice::slice_to_vec(vstd::slice::slice_subrange(s.as_slice(), i, j))
}

// ---------------------------------------------------------------------------
// Scanner state
// ---------------------------------------------------------------------------
/// The scanner's state: output built so far, distinct parameter names in
/// first-occurrence order, fragment names in occurrence order, collected
/// diagnostics, the pending column-list group (its precomputed positional
/// marker list), and whether scanning aborted early.
pub ghost struct ScanState {
    pub out: Seq<u8>,
    pub names: Seq<Seq<u8>>,
    pub frags: Seq<Seq<u8>>,
    pub diags: Seq<Diag>,
    pub pending: Option<Seq<u8>>,
    pub aborted: bool,
}

/// The state a scan starts from.
pub open spec fn init_state() -> ScanState {
    ScanState {
        out: Seq::empty(),
        names: Seq::empty(),
        frags: Seq::empty(),
        diags: Seq::empty(),
        pending: None,
        aborted: false,
    }
}

/// End of input: a group still pending is reported as never used.
pub open spec fn finish_state(st: ScanState) -> ScanState {
    if st.pending is Some {
        ScanState { diags: st.diags.push(Diag::LastGroupUnused), ..st }
    } else {
        st
    }
}

/// Early abort: the diagnostic is recorded and scanning stops, keeping
/// the output built so far.
pub open spec fn abort_state(st: ScanState, d: Diag) -> ScanState {
    ScanState { diags: st.diags.push(d), aborted: true, ..st }
}

/// The group back-reference token `..`.
pub open spec fn dotdot() -> Seq<u8> {
    seq![DOT, DOT]
}

/// A fragment hole `{}` in the rewritten template.
pub open spec fn frag_hole() -> Seq<u8> {
    seq![LBRACE, RBRACE]
}

/// `n` copies of the empty-entry diagnostic.
pub open spec fn empty_entry_diags(n: nat) -> Seq<Diag> {
    Seq::new(n, |k: int| Diag::EmptyGroupEntry)
}

// ---------------------------------------------------------------------------
// Column-list groups
// ---------------------------------------------------------------------------
/// What folding the entries of a column-list definition produces.
pub ghost struct GroupFold {
    /// The name list after interning every non-empty trimmed entry.
    pub names: Seq<Seq<u8>>,
    /// The positional markers of the entries, joined with `, `.
    pub markers: Seq<u8>,
    /// How many entries were empty after trimming.
    pub errs: nat,
}

/// Joins two marker lists with `, `, dropping an empty side.
pub open spec fn join_markers(a: Seq<u8>, b: Seq<u8>) -> Seq<u8> {
    if a.len() == 0 {
        b
    } else if b.len() == 0 {
        a
    } else {
        a + seq![COMMA, SPACE] + b
    }
}

/// Folds the comma-separated entries of the region `[i, end)`: each entry
/// is trimmed of whitespace; an empty entry counts as an error, any other
/// is interned into the name list and contributes its positional marker.
pub open spec fn group_pieces(s: Seq<u8>, i: int, end: int, names: Seq<Seq<u8>>) -> GroupFold
    decreases end - i,
{
    if i < 0 || i > end || end > s.len() {
        GroupFold { names, markers: Seq::empty(), errs: 0 }
    } else {
        let c = comma_end(s, i, end);
        let lo = skip_spaces(s, i, c);
        let hi = rtrim_end(s, lo, c);
        let piece = s.subrange(lo, hi);
        let found = piece.len() != 0;
        let names1 = if found {
            insert_name(names, piece)
        } else {
            names
        };
        let markers1 = if found {
            marker_of(name_index(names, piece))
        } else {
            Seq::<u8>::empty()
        };
        let errs1: nat = if found {
            0
        } else {
            1
        };
        if c >= end {
            GroupFold { names: names1, markers: markers1, errs: errs1 }
        } else {
            let rest = group_pieces(s, c + 1, end, names1);
            GroupFold {
                names: rest.names,
                markers: join_markers(markers1, rest.markers),
                errs: (errs1 + rest.errs) as nat,
            }
        }
    }
}

/// Folding a region grows the name list by at most one entry per byte of
/// the region, plus one.
pub proof fn lemma_group_pieces_growth(s: Seq<u8>, i: int, end: int, names: Seq<Seq<u8>>)
    requires
        0 <= i <= end <= s.len(),
    ensures
        names.len() <= group_pieces(s, i, end, names).names.len() <= names.len() + (end - i) + 1,
    decreases end - i,
{
    let c = comma_end(s, i, end);
    let lo = skip_spaces(s, i, c);
    let hi = rtrim_end(s, lo, c);
    let piece = s.subrange(lo, hi);
    let names1 = if piece.len() != 0 {
        insert_name(names, piece)
    } else {
        names
    };
    if c < end {
        lemma_group_pieces_growth(s, c + 1, end, names1);
    }
}

/// Folds the entries of the column-list region `[i, end)`: interns each
/// non-empty trimmed entry, reports each empty one, and returns the
/// joined positional markers.
fn collect_group(s: &Vec<u8>, i: usize, end: usize, names: &mut Vec<Vec<u8>>, diags: &mut Vec<
    Diag,
>) -> (markers: Vec<u8>)
    requires
        i <= end <= s@.len(),
        name_views(old(names)@).len() + (end - i) < usize::MAX,
    ensures
        ({
            let gf = group_pieces(s@, i as int, end as int, name_views(old(names)@));
            &&& name_views(final(names)@) == gf.names
            &&& markers@ == gf.markers
            &&& final(diags)@ == old(diags)@ + empty_entry_diags(gf.errs)
        }),
    decreases end - i,
{
    let ghost names0 = name_views(names@);
    let ghost diags0 = diags@;
    let c = find_comma(s, i, end);
    let lo = find_unpadded(s, i, c);
    let hi = find_rtrim(s, lo, c);
    let mut markers1: Vec<u8> = Vec::new();
    if lo < hi {
        let piece = copy_range(s, lo, hi);
        let idx = intern_name(names, piece);
        markers1 = marker_bytes(idx);
    } else {
        diags.push(Diag::EmptyGroupEntry);
        proof {
            assert(s@.subrange(lo as int, hi as int).len() == 0);
        }
    }
    let ghost gf = group_pieces(s@, i as int, end as int, names0);
    if c >= end {
        proof {
            assert(markers1@ == gf.markers);
            assert(name_views(names@) == gf.names);
            assert(diags@ =~= diags0 + empty_entry_diags(gf.errs));
        }
        markers1
    } else {
        let ghost names1 = name_views(names@);
        let ghost markers1v = markers1@;
        let rest = collect_group(s, c + 1, end, names, diags);
        let ghost restf = group_pieces(s@, c as int + 1, end as int, names1);
        let res = if markers1.len() == 0 {
            rest
        } else if rest.len() == 0 {
            markers1
        } else {
            let mut m = markers1;
            m.push(COMMA);
            m.push(SPACE);
            let mut r2 = rest;
            m.append(&mut r2);
            m
        };
        proof {
            assert(gf.markers == join_markers(markers1v, restf.markers));
            assert(res@ =~= join_markers(markers1v, restf.markers));
            assert(name_views(names@) == gf.names);
            assert(diags@ =~= diags0 + empty_entry_diags(gf.errs));
        }
        res
    }
}

// ---------------------------------------------------------------------------
// The scan itself
// ---------------------------------------------------------------------------
/// One left-to-right pass over the pre-escaped template `s` from position
/// `i` in state `st`. Ordinary bytes are copied; at each `$` the scanner
/// recognises a fragment marker, a plain parameter reference, a group
/// back-reference or a group definition, extending the state accordingly;
/// the malformed cases abort early, the others are reported and scanning
/// continues. At the end of input a still-pending group is reported.
pub open spec fn scan_from(s: Seq<u8>, i: int, st: ScanState) -> ScanState
    decreases s.len() - i,
{
    if i < 0 || i >= s.len() {
        finish_state(st)
    } else if s[i] != DOLLAR {
        scan_from(s, i + 1, ScanState { out: st.out.push(s[i]), ..st })
    } else {
        let j = i + 1;
        if j + 2 <= s.len() && s[j] == LBRACE && s[j + 1] == LBRACE {
            // fragment marker: `${{` (braces arrive pre-escaped)
            let k = j + 2;
            let e = ident_end(s, k);
            if e == k {
                abort_state(st, Diag::ExpectedIdentifierAfterBrace)
            } else {
                let ident = s.subrange(k, e);
                let closed = e + 2 <= s.len() && s[e] == RBRACE && s[e + 1] == RBRACE;
                let cont = if closed {
                    e + 2
                } else {
                    e
                };
                let diags1 = if closed {
                    st.diags
                } else {
                    st.diags.push(Diag::FragmentUnterminated)
                };
                scan_from(
                    s,
                    cont,
                    ScanState {
                        out: st.out + frag_hole(),
                        frags: st.frags.push(ident),
                        diags: diags1,
                        ..st
                    },
                )
            }
        } else {
            let e = ident_end(s, j);
            if e > j {
                // plain parameter reference
                let ident = s.subrange(j, e);
                scan_from(
                    s,
                    e,
                    ScanState {
                        out: st.out + marker_of(name_index(st.names, ident)),
                        names: insert_name(st.names, ident),
                        ..st
                    },
                )
            } else if !(j < s.len() && s[j] == LBRACKET) {
                abort_state(st, Diag::ExpectedIdentOrBracket)
            } else {
                // column-list construct
                let g = j + 1;
                let ge = group_end(s, g);
                if !(ge < s.len() && s[ge] == RBRACKET) {
                    abort_state(st, Diag::ExpectedClosingBracket)
                } else {
                    let columns = s.subrange(g, ge);
                    let cont = ge + 1;
                    if columns == dotdot() {
                        // group back-reference
                        if st.pending is Some {
                            scan_from(
                                s,
                                cont,
                                ScanState { out: st.out + st.pending.unwrap(), pending: None, ..st },
                            )
                        } else {
                            scan_from(
                                s,
                                cont,
                                ScanState { diags: st.diags.push(Diag::GroupUsedNotDefined), ..st },
                            )
                        }
                    } else {
                        // group definition
                        let gf = group_pieces(s, g, ge, st.names);
                        let dup: Seq<Diag> = if st.pending is Some {
                            seq![Diag::PreviousGroupUnused]
                        } else {
                            Seq::empty()
                        };
                        scan_from(
                            s,
                            cont,
                            ScanState {
                                out: st.out + columns,
                                names: gf.names,
                                diags: st.diags + empty_entry_diags(gf.errs) + dup,
                                pending: Some(gf.markers),
                                ..st
                            },
                        )
                    }
                }
            }
        }
    }
}

/// What scanning a template produces: the rewritten template, the
/// distinct parameter names in first-occurrence order, the fragment
/// names in occurrence order, and the diagnostics, all as one state.
pub open spec fn scan_spec(template: Seq<u8>) -> ScanState {
    scan_from(escape_braces(template), 0, init_state())
}

/// What [`scan`] hands back.
pub struct ScanOutput {
    /// The rewritten template: positional markers instead of named ones,
    /// `{}` holes for fragments, braces doubled.
    pub rewritten: Vec<u8>,
    /// The distinct parameter names, in first-occurrence order.
    pub names: Vec<Vec<u8>>,
    /// The fragment names, one entry per occurrence, left to right.
    pub fragments: Vec<Vec<u8>>,
    /// Every problem found, in the order encountered.
    pub diags: Vec<Diag>,
}

/// Rewrites a template with named parameter markers into one with
/// positional markers. `template` is the UTF-8 bytes of the source
/// template; the result is exactly [`scan_spec`] of it.
pub fn scan(template: &Vec<u8>) -> (r: ScanOutput)
    ensures
        r.rewritten@ == scan_spec(template@).out,
        name_views(r.names@) == scan_spec(template@).names,
        name_views(r.fragments@) == scan_spec(template@).frags,
        r.diags@ == scan_spec(template@).diags,
{
    let s = escape_braces_exec(template);
    let n = s.len();
    let ghost target = scan_spec(template@);
    let mut out: Vec<u8> = Vec::new();
    let mut names: Vec<Vec<u8>> = Vec::new();
    let mut frags: Vec<Vec<u8>> = Vec::new();
    let mut diags: Vec<Diag> = Vec::new();
    let mut pending: Option<Vec<u8>> = None;
    let mut i: usize = 0;
    proof {
        assert(name_views(Seq::<Vec<u8>>::empty()) =~= Seq::<Seq<u8>>::empty());
        assert((ScanState {
            out: out@,
            names: name_views(names@),
            frags: name_views(frags@),
            diags: diags@,
            pending: opt_view(pending),
            aborted: false,
        }) == init_state());
    }
    while i < n
        invariant
            n == s@.len(),
            s@ == escape_braces(template@),
            i <= n,
            names@.len() <= i,
            target == scan_spec(template@),
            scan_from(
                s@,
                i as int,
                (ScanState {
                    out: out@,
                    names: name_views(names@),
                    frags: name_views(frags@),
                    diags: diags@,
                    pending: opt_view(pending),
                    aborted: false,
                }),
            ) == target,
        decreases n - i,
    {
        let ghost st0 = ScanState {
            out: out@,
            names: name_views(names@),
            frags: name_views(frags@),
            diags: diags@,
            pending: opt_view(pending),
            aborted: false,
        };
        let b = s[i];
        if b != DOLLAR {
            out.push(b);
            i = i + 1;
        } else {
            let j = i + 1;
            if n - j >= 2 && s[j] == LBRACE && s[j + 1] == LBRACE {
                // fragment marker
                let k = j + 2;
                let e = find_ident_end(&s, k);
                if e == k {
                    diags.push(Diag::ExpectedIdentifierAfterBrace);
                    proof {
                        assert(scan_from(s@, i as int, st0) == abort_state(
                            st0,
                            Diag::ExpectedIdentifierAfterBrace,
                        ));
                    }
                    return ScanOutput { rewritten: out, names, fragments: frags, diags };
                }
                let ident = copy_range(&s, k, e);
                let closed = n - e >= 2 && s[e] == RBRACE && s[e + 1] == RBRACE;
                if !closed {
                    diags.push(Diag::FragmentUnterminated);
                }
                frags.push(ident);
                out.push(LBRACE);
                out.push(RBRACE);
                proof {
                    assert(out@ == st0.out + frag_hole()) by {
                        assert(out@ =~= st0.out + frag_hole());
                    }
                }
                i = if closed {
                    e + 2
                } else {
                    e
                };
            } else {
                let e = find_ident_end(&s, j);
                if e > j {
                    // plain parameter reference
                    let ident = copy_range(&s, j, e);
                    let idx = intern_name(&mut names, ident);
                    let mut m = marker_bytes(idx);
                    out.append(&mut m);
                    i = e;
                } else if !(j < n && s[j] == LBRACKET) {
                    diags.push(Diag::ExpectedIdentOrBracket);
                    proof {
                        assert(scan_from(s@, i as int, st0) == abort_state(
                            st0,
                            Diag::ExpectedIdentOrBracket,
                        ));
                    }
                    return ScanOutput { rewritten: out, names, fragments: frags, diags };
                } else {
                    // column-list construct
                    let g = j + 1;
                    let ge = find_group_end(&s, g);
                    if !(ge < n && s[ge] == RBRACKET) {
                        diags.push(Diag::ExpectedClosingBracket);
                        proof {
                            assert(scan_from(s@, i as int, st0) == abort_state(
                                st0,
                                Diag::ExpectedClosingBracket,
                            ));
                        }
                        return ScanOutput { rewritten: out, names, fragments: frags, diags };
                    }
                    let backref = ge - g == 2 && s[g] == DOT && s[g + 1] == DOT;
                    proof {
                        if backref {
                            assert(s@.subrange(g as int, ge as int) =~= dotdot());
                        } else {
                            assert(s@.subrange(g as int, ge as int) != dotdot()) by {
                                let cols = s@.subrange(g as int, ge as int);
                                if cols == dotdot() {
                                    assert(ge - g == 2);
                                    assert(cols[0] == s@[g as int] && cols[1] == s@[g as int + 1]);
                                }
                            }
                        }
                    }
                    if backref {
                        // group back-reference
                        let p = pending;
                        pending = None;
                        match p {
                            Some(cols) => {
                                let mut cols = cols;
                                out.append(&mut cols);
                            },
                            None => {
                                diags.push(Diag::GroupUsedNotDefined);
                            },
                        }
                        i = ge + 1;
                    } else {
                        // group definition
                        let markers = collect_group(&s, g, ge, &mut names, &mut diags);
                        let was_pending = pending.is_some();
                        pending = Some(markers);
                        if was_pending {
                            diags.push(Diag::PreviousGroupUnused);
                        }
                        let mut cols = copy_range(&s, g, ge);
                        out.append(&mut cols);
                        proof {
                            lemma_group_pieces_growth(s@, g as int, ge as int, st0.names);
                            let gf = group_pieces(s@, g as int, ge as int, st0.names);
                            let dup: Seq<Diag> = if st0.pending is Some {
                                seq![Diag::PreviousGroupUnused]
                            } else {
                                Seq::empty()
                            };
                            assert(diags@ =~= st0.diags + empty_entry_diags(gf.errs) + dup);
                        }
                        i = ge + 1;
                    }
                }
            }
        }
    }
    proof {
        let st_end = ScanState {
            out: out@,
            names: name_views(names@),
            frags: name_views(frags@),
            diags: diags@,
            pending: opt_view(pending),
            aborted: false,
        };
        assert(scan_from(s@, i as int, st_end) == finish_state(st_end));
    }
    if pending.is_some() {
        diags.push(Diag::LastGroupUnused);
    }
    ScanOutput { rewritten: out, names, fragments: frags, diags }
}

/// The view of an optional byte vector.
pub open spec fn opt_view(p: Option<Vec<u8>>) -> Option<Seq<u8>> {
    match p {
        Some(v) => Some(v@),
        None => None,
    }
}

/// [`scan`] on a template given as text: the scan is specified over the
/// template's UTF-8 bytes.
pub fn scan_text(template: &str) -> (r: ScanOutput)
    ensures
        r.rewritten@ == scan_spec(template.spec_bytes()).out,
        name_views(r.names@) == scan_spec(template.spec_bytes()).names,
        name_views(r.fragments@) == scan_spec(template.spec_bytes()).frags,
        r.diags@ == scan_spec(template.spec_bytes()).diags,
{
    let bytes = template.as_bytes_vec();
    scan(&bytes)
}

} // verus!
