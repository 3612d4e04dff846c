//! The parameter resolver.
//!
//! The scanner leaves behind an ordered list of distinct parameter names
//! and an ordered list of fragment occurrences. The caller supplies
//! name/value records, each declared under a role name: `Args` binds
//! parameters, `Sql` binds fragments. The resolver aligns each name with
//! the position of the matching field of its record — entry `t` of the
//! parameter match belongs to positional marker `$t+1` — and reports the
//! role-level mistakes: spread syntax, duplicate or unknown role names,
//! and a missing record while names are waiting to be bound.
//!
//! Values stay with the caller: a record here carries only its field
//! names, and the resolver hands back field positions, so a binding can
//! be any host value (a SQL argument, a fragment's text) held in an array
//! parallel to the record's fields.

use crate::diag::Diag;
use crate::names::{bytes_eq, find_name, name_index, name_views};
use vstd::prelude::*;

verus! {

broadcast use crate::names::lemma_name_index;

/// The reserved role name of the parameter-binding record: `Args`.
pub open spec fn args_role() -> Seq<u8> {
    seq![65u8, 114u8, 103u8, 115u8]
}

/// The reserved role name of the fragment-binding record: `Sql`.
pub open spec fn sql_role() -> Seq<u8> {
    seq![83u8, 113u8, 108u8]
}

/// A caller-declared name/value record: the role name it was declared
/// under, its field names in declaration order, and whether it used
/// record-update (spread) syntax.
pub struct RecordDecl {
    /// The declared role name, e.g. `Args`.
    pub name: Vec<u8>,
    /// The field names, in declaration order.
    pub fields: Vec<Vec<u8>>,
    /// Whether the record used record-update (spread) syntax.
    pub has_spread: bool,
}

/// The mathematical view of a [`RecordDecl`].
pub ghost struct RecordView {
    pub name: Seq<u8>,
    pub fields: Seq<Seq<u8>>,
    pub has_spread: bool,
}

impl View for RecordDecl {
    type V = RecordView;

    open spec fn view(&self) -> RecordView {
        RecordView {
            name: self.name@,
            fields: name_views(self.fields@),
            has_spread: self.has_spread,
        }
    }
}

/// The views of a sequence of records.
pub open spec fn rec_views(rs: Seq<RecordDecl>) -> Seq<RecordView> {
    rs.map_values(|r: RecordDecl| r@)
}

/// The views of a sequence of indices.
pub open spec fn usize_views(s: Seq<usize>) -> Seq<int> {
    s.map_values(|u: usize| u as int)
}

/// The index of the last record declared under `role`, or `-1`. The last
/// one wins because a later record under an already-taken role replaces
/// the earlier one (which is reported as a duplicate).
pub open spec fn last_role_index(rs: Seq<RecordView>, role: Seq<u8>) -> int
    decreases rs.len(),
{
    if rs.len() == 0 {
        -1
    } else if rs.last().name == role {
        rs.len() - 1
    } else {
        last_role_index(rs.drop_last(), role)
    }
}

/// Whether an earlier record carries the same role name as record `i`.
pub open spec fn dup_before(rs: Seq<RecordView>, i: int) -> bool {
    exists|j: int| 0 <= j < i && rs[j].name == rs[i].name
}

/// The diagnostics of the record declarations themselves, in declaration
/// order: spread syntax, then a repeated role name.
pub open spec fn record_diags(rs: Seq<RecordView>, i: int) -> Seq<Diag>
    decreases rs.len() - i,
{
    if i < 0 || i >= rs.len() {
        Seq::empty()
    } else {
        let spread: Seq<Diag> = if rs[i].has_spread {
            seq![Diag::StructUpdateSyntax]
        } else {
            Seq::empty()
        };
        let dup: Seq<Diag> = if dup_before(rs, i) {
            seq![Diag::DuplicateStructName]
        } else {
            Seq::empty()
        };
        spread + dup + record_diags(rs, i + 1)
    }
}

/// One diagnostic per distinct role name that is neither `Args` nor
/// `Sql`, at its first occurrence, carrying that record's index.
pub open spec fn unknown_diags(rs: Seq<RecordView>, i: int) -> Seq<Diag>
    decreases rs.len() - i,
{
    if i < 0 || i >= rs.len() {
        Seq::empty()
    } else {
        let here: Seq<Diag> = if rs[i].name != args_role() && rs[i].name != sql_role()
            && !dup_before(rs, i) {
            seq![Diag::UnknownStructName(i as usize)]
        } else {
            Seq::empty()
        };
        here + unknown_diags(rs, i + 1)
    }
}

/// For each key from position `i` on that occurs among `fields`, the
/// position of its field, in key order; keys without a field are skipped.
pub open spec fn match_from(keys: Seq<Seq<u8>>, i: int, fields: Seq<Seq<u8>>) -> Seq<int>
    decreases keys.len() - i,
{
    if i < 0 || i >= keys.len() {
        Seq::empty()
    } else {
        let rest = match_from(keys, i + 1, fields);
        if name_index(fields, keys[i]) < fields.len() {
            seq![name_index(fields, keys[i])] + rest
        } else {
            rest
        }
    }
}

/// The argument positions of the scanned parameter names: entry `t`
/// is the field position bound to positional marker `$t+1`, read from
/// the last record declared under `Args`.
pub open spec fn resolved_params(rs: Seq<RecordView>, names: Seq<Seq<u8>>) -> Seq<int> {
    let ai = last_role_index(rs, args_role());
    if ai >= 0 {
        match_from(names, 0, rs[ai].fields)
    } else {
        Seq::empty()
    }
}

/// The field positions of the scanned fragment occurrences, read from
/// the last record declared under `Sql`; every occurrence of a name
/// resolves independently.
pub open spec fn resolved_fragments(rs: Seq<RecordView>, frags: Seq<Seq<u8>>) -> Seq<int> {
    let si = last_role_index(rs, sql_role());
    if si >= 0 {
        match_from(frags, 0, rs[si].fields)
    } else {
        Seq::empty()
    }
}

/// Every diagnostic of one resolution, in order: the record-declaration
/// problems, a missing `Args` record while parameters are waiting, a
/// missing `Sql` record while fragments are waiting, then the unknown
/// role names.
pub open spec fn resolve_diags(rs: Seq<RecordView>, n_names: nat, n_frags: nat) -> Seq<Diag> {
    record_diags(rs, 0) + (if last_role_index(rs, args_role()) < 0 && n_names > 0 {
        seq![Diag::ExpectedArgsStruct]
    } else {
        Seq::<Diag>::empty()
    }) + (if last_role_index(rs, sql_role()) < 0 && n_frags > 0 {
        seq![Diag::ExpectedSqlStruct]
    } else {
        Seq::<Diag>::empty()
    }) + unknown_diags(rs, 0)
}

/// What [`resolve`] hands back.
pub struct Resolution {
    /// For each position `t` of the match, the field of the `Args` record
    /// bound to positional marker `$t+1`.
    pub param_indices: Vec<usize>,
    /// For each fragment occurrence, left to right, the field of the
    /// `Sql` record whose value fills that hole.
    pub fragment_indices: Vec<usize>,
    /// The record declared under `Args` that won, when there is one.
    pub args_record: Option<usize>,
    /// The record declared under `Sql` that won, when there is one.
    pub sql_record: Option<usize>,
    /// Whether hole substitution should run: exactly when every fragment
    /// occurrence found its field, so the values match the holes.
    pub substitute: bool,
    /// Every problem found, in order.
    pub diags: Vec<Diag>,
}

/// `true` exactly when `n` is the role name `Args`.
fn is_args_name(n: &Vec<u8>) -> (r: bool)
    ensures
        r == (n@ == args_role()),
{
    if n.len() != 4 {
        proof {
            assert(n@ != args_role()) by {
                if n@ == args_role() {
                    assert(n@.len() == 4);
                }
            }
        }
        return false;
    }
    let r = n[0] == 65 && n[1] == 114 && n[2] == 103 && n[3] == 115;
    proof {
        if r {
            assert(n@ =~= args_role());
        } else if n@ == args_role() {
            assert(n@[0] == 65u8 && n@[1] == 114u8 && n@[2] == 103u8 && n@[3] == 115u8);
        }
    }
    r
}

/// `true` exactly when `n` is the role name `Sql`.
fn is_sql_name(n: &Vec<u8>) -> (r: bool)
    ensures
        r == (n@ == sql_role()),
{
    if n.len() != 3 {
        proof {
            assert(n@ != sql_role()) by {
                if n@ == sql_role() {
                    assert(n@.len() == 3);
                }
            }
        }
        return false;
    }
    let r = n[0] == 83 && n[1] == 113 && n[2] == 108;
    proof {
        if r {
            assert(n@ =~= sql_role());
        } else if n@ == sql_role() {
            assert(n@[0] == 83u8 && n@[1] == 113u8 && n@[2] == 108u8);
        }
    }
    r
}

/// Whether a record before `k` carries the same role name.
fn dup_before_exec(records: &Vec<RecordDecl>, k: usize) -> (r: bool)
    requires
        k < records@.len(),
    ensures
        r == dup_before(rec_views(records@), k as int),
{
    let mut j: usize = 0;
    while j < k
        invariant
            j <= k < records@.len(),
            forall|t: int| 0 <= t < j ==> rec_views(records@)[t].name != rec_views(
                records@,
            )[k as int].name,
        decreases k - j,
    {
        if bytes_eq(&records[j].name, &records[k].name) {
            proof {
                assert(rec_views(records@)[j as int].name == rec_views(records@)[k as int].name);
            }
            return true;
        }
        j = j + 1;
    }
    false
}

/// The positions of the fields matching `keys`, in key order, skipping
/// keys without a field.
fn match_indices(keys: &Vec<Vec<u8>>, fields: &Vec<Vec<u8>>) -> (r: Vec<usize>)
    ensures
        usize_views(r@) == match_from(name_views(keys@), 0, name_views(fields@)),
        forall|t: int| 0 <= t < r@.len() ==> (r@[t] as int) < fields@.len(),
{
    let ghost kv = name_views(keys@);
    let ghost fv = name_views(fields@);
    let mut r: Vec<usize> = Vec::new();
    let mut k: usize = 0;
    while k < keys.len()
        invariant
            k <= keys@.len(),
            kv == name_views(keys@),
            fv == name_views(fields@),
            match_from(kv, 0, fv) == usize_views(r@) + match_from(kv, k as int, fv),
            forall|t: int| 0 <= t < r@.len() ==> (r@[t] as int) < fields@.len(),
        decreases keys@.len() - k,
    {
        let ghost r0 = usize_views(r@);
        let idx = find_name(fields, &keys[k]);
        if idx < fields.len() {
            r.push(idx);
            proof {
                assert(usize_views(r@) =~= r0.push(idx as int));
                assert(r0.push(idx as int) =~= r0 + seq![idx as int]);
            }
        }
        proof {
            assert(match_from(kv, 0, fv) =~= usize_views(r@) + match_from(kv, k as int + 1, fv));
        }
        k = k + 1;
    }
    proof {
        assert(match_from(kv, 0, fv) =~= usize_views(r@));
    }
    r
}

/// Aligns the scanned names and fragment occurrences with the declared
/// records and reports every role-level mistake of the declarations.
pub fn resolve(names: &Vec<Vec<u8>>, fragments: &Vec<Vec<u8>>, records: &Vec<RecordDecl>) -> (r:
    Resolution)
    ensures
        ({
            let rs = rec_views(records@);
            let ai = last_role_index(rs, args_role());
            let si = last_role_index(rs, sql_role());
            &&& r.args_record == (if ai >= 0 {
                Some(ai as usize)
            } else {
                None::<usize>
            })
            &&& r.sql_record == (if si >= 0 {
                Some(si as usize)
            } else {
                None::<usize>
            })
            &&& usize_views(r.param_indices@) == resolved_params(rs, name_views(names@))
            &&& usize_views(r.fragment_indices@) == resolved_fragments(rs, name_views(fragments@))
            &&& forall|t: int|
                0 <= t < r.param_indices@.len() ==> ai >= 0 && (r.param_indices@[t] as int)
                    < rs[ai].fields.len()
            &&& forall|t: int|
                0 <= t < r.fragment_indices@.len() ==> si >= 0 && (r.fragment_indices@[t] as int)
                    < rs[si].fields.len()
            &&& r.substitute == (r.fragment_indices@.len() == fragments@.len())
            &&& r.diags@ == resolve_diags(rs, names@.len() as nat, fragments@.len() as nat)
        }),
{
    let ghost rs = rec_views(records@);
    let n = records.len();

    // Which record of each role wins: the last declared one.
    let mut args_i: Option<usize> = None;
    let mut sql_i: Option<usize> = None;
    let mut k: usize = 0;
    while k < n
        invariant
            n == records@.len(),
            rs == rec_views(records@),
            k <= n,
            (match args_i {
                Some(x) => x < k && last_role_index(rs.take(k as int), args_role()) == x as int,
                None => last_role_index(rs.take(k as int), args_role()) == -1,
            }),
            (match sql_i {
                Some(x) => x < k && last_role_index(rs.take(k as int), sql_role()) == x as int,
                None => last_role_index(rs.take(k as int), sql_role()) == -1,
            }),
        decreases n - k,
    {
        proof {
            assert(rs.take(k as int + 1).drop_last() =~= rs.take(k as int));
            assert(rs.take(k as int + 1).last() == rs[k as int]);
        }
        if is_args_name(&records[k].name) {
            args_i = Some(k);
        }
        if is_sql_name(&records[k].name) {
            sql_i = Some(k);
        }
        k = k + 1;
    }
    proof {
        assert(rs.take(n as int) =~= rs);
    }

    // Diagnostics of the declarations themselves, in declaration order.
    let mut diags: Vec<Diag> = Vec::new();
    let mut k: usize = 0;
    while k < n
        invariant
            n == records@.len(),
            rs == rec_views(records@),
            k <= n,
            record_diags(rs, 0) == diags@ + record_diags(rs, k as int),
        decreases n - k,
    {
        let ghost d0 = diags@;
        if records[k].has_spread {
            diags.push(Diag::StructUpdateSyntax);
        }
        if dup_before_exec(records, k) {
            diags.push(Diag::DuplicateStructName);
        }
        proof {
            let spread: Seq<Diag> = if rs[k as int].has_spread {
                seq![Diag::StructUpdateSyntax]
            } else {
                Seq::empty()
            };
            let dup: Seq<Diag> = if dup_before(rs, k as int) {
                seq![Diag::DuplicateStructName]
            } else {
                Seq::empty()
            };
            assert(diags@ =~= d0 + (spread + dup));
            assert(d0 + (spread + dup) + record_diags(rs, k as int + 1) =~= d0 + (spread + dup
                + record_diags(rs, k as int + 1)));
        }
        k = k + 1;
    }
    let ghost base_record_diags = diags@;

    // A missing record is only a problem while something needs binding.
    if args_i.is_none() && names.len() > 0 {
        diags.push(Diag::ExpectedArgsStruct);
    }
    if sql_i.is_none() && fragments.len() > 0 {
        diags.push(Diag::ExpectedSqlStruct);
    }
    let ghost base_missing_diags = diags@;

    // One report per distinct unknown role name, at its first occurrence.
    let mut k: usize = 0;
    while k < n
        invariant
            n == records@.len(),
            rs == rec_views(records@),
            k <= n,
            base_missing_diags + unknown_diags(rs, 0) == diags@ + unknown_diags(rs, k as int),
        decreases n - k,
    {
        let ghost d0 = diags@;
        if !is_args_name(&records[k].name) && !is_sql_name(&records[k].name) && !dup_before_exec(
            records,
            k,
        ) {
            diags.push(Diag::UnknownStructName(k));
        }
        proof {
            let here: Seq<Diag> = if rs[k as int].name != args_role() && rs[k as int].name
                != sql_role() && !dup_before(rs, k as int) {
                seq![Diag::UnknownStructName(k)]
            } else {
                Seq::empty()
            };
            assert(diags@ =~= d0 + here);
            assert(d0 + here + unknown_diags(rs, k as int + 1) =~= d0 + (here + unknown_diags(
                rs,
                k as int + 1,
            )));
        }
        k = k + 1;
    }

    // Align names and fragment occurrences with the winning records.
    let param_indices: Vec<usize> = match args_i {
        Some(x) => match_indices(names, &records[x].fields),
        None => Vec::new(),
    };
    let fragment_indices: Vec<usize> = match sql_i {
        Some(x) => match_indices(fragments, &records[x].fields),
        None => Vec::new(),
    };
    let substitute = fragment_indices.len() == fragments.len();

    proof {
        assert(usize_views(Seq::<usize>::empty()) =~= Seq::<int>::empty());
        assert(diags@ =~= resolve_diags(rs, names@.len() as nat, fragments@.len() as nat));
    }
    Resolution { param_indices, fragment_indices, args_record: args_i, sql_record: sql_i, substitute, diags }
}

/// The values at `indices`, in order. With a value array parallel to the
/// winning record's fields, this is the resolved texts in hole order.
pub fn select(values: &Vec<Vec<u8>>, indices: &Vec<usize>) -> (r: Vec<Vec<u8>>)
    requires
        forall|t: int| 0 <= t < indices@.len() ==> (indices@[t] as int) < values@.len(),
    ensures
        r@.len() == indices@.len(),
        forall|t: int| 0 <= t < r@.len() ==> r@[t]@ == values@[indices@[t] as int]@,
{
    let mut r: Vec<Vec<u8>> = Vec::new();
    let mut k: usize = 0;
    while k < indices.len()
        invariant
            k <= indices@.len(),
            r@.len() == k,
            forall|t: int| 0 <= t < indices@.len() ==> (indices@[t] as int) < values@.len(),
            forall|t: int| 0 <= t < k ==> r@[t]@ == values@[indices@[t] as int]@,
        decreases indices@.len() - k,
    {
        let idx = indices[k];
        let v = vstd::slice::slice_to_vec(values[idx].as_slice());
        proof {
            assert(v@ =~= values@[idx as int]@);
        }
        r.push(v);
        k = k + 1;
    }
    r
}

} // verus!
