//! Byte-string identifiers and ordered name lists.
//!
//! Parameter and fragment names are byte strings (the UTF-8 bytes of the
//! template). A name list is an ordered `Vec` of such strings; interning a
//! name returns the position of its first occurrence, appending it only
//! when it is new, so a list built this way holds distinct names in
//! first-occurrence order.

use vstd::prelude::*;

verus! {

/// The views of a sequence of byte vectors.
pub open spec fn name_views(ns: Seq<Vec<u8>>) -> Seq<Seq<u8>> {
    ns.map_values(|n: Vec<u8>| n@)
}

/// The position of the first occurrence of `x` in `names`, or
/// `names.len()` when `x` does not occur.
pub open spec fn name_index(names: Seq<Seq<u8>>, x: Seq<u8>) -> int
    decreases names.len(),
{
    if names.len() == 0 {
        0
    } else if names[0] == x {
        0
    } else {
        1 + name_index(names.drop_first(), x)
    }
}

/// `names` unchanged when it already holds `x`, else `names` with `x`
/// appended; either way `name_index` afterwards points at `x`.
pub open spec fn insert_name(names: Seq<Seq<u8>>, x: Seq<u8>) -> Seq<Seq<u8>> {
    if name_index(names, x) < names.len() {
        names
    } else {
        names.push(x)
    }
}

/// `name_index` is the first occurrence: everything before it differs
/// from `x`, and it points at `x` whenever it is in range.
pub broadcast proof fn lemma_name_index(names: Seq<Seq<u8>>, x: Seq<u8>)
    ensures
        0 <= #[trigger] name_index(names, x) <= names.len(),
        name_index(names, x) < names.len() ==> names[name_index(names, x)] == x,
        forall|k: int| 0 <= k < name_index(names, x) ==> names[k] != x,
    decreases names.len(),
{
    if names.len() > 0 && names[0] != x {
        lemma_name_index(names.drop_first(), x);
        assert forall|k: int| 0 <= k < name_index(names, x) implies names[k] != x by {
            if k > 0 {
                assert(names.drop_first()[k - 1] == names[k]);
            }
        }
    }
}

/// A name list stays the same or grows by one entry when a name is
/// interned, and what was there before keeps its position.
pub proof fn lemma_insert_name_extends(names: Seq<Seq<u8>>, x: Seq<u8>)
    ensures
        names.len() <= insert_name(names, x).len() <= names.len() + 1,
        forall|k: int| 0 <= k < names.len() ==> insert_name(names, x)[k] == names[k],
        insert_name(names, x)[name_index(names, x)] == x,
{
    lemma_name_index(names, x);
}

/// Pushing onto a vector of byte strings pushes the view.
pub broadcast proof fn lemma_name_views_push(ns: Seq<Vec<u8>>, n: Vec<u8>)
    ensures
        #[trigger] name_views(ns.push(n)) == name_views(ns).push(n@),
{
    assert(name_views(ns.push(n)) =~= name_views(ns).push(n@));
}

/// Byte-string equality.
pub fn bytes_eq(a: &Vec<u8>, b: &Vec<u8>) -> (r: bool)
    ensures
        r == (a@ == b@),
{
    if a.len() != b.len() {
        return false;
    }
    let mut i: usize = 0;
    while i < a.len()
        invariant
            i <= a@.len(),
            a@.len() == b@.len(),
            forall|j: int| 0 <= j < i ==> a@[j] == b@[j],
        decreases a@.len() - i,
    {
        if a[i] != b[i] {
            return false;
        }
        i = i + 1;
    }
    proof {
        assert(a@ =~= b@);
    }
    true
}

/// The first occurrence of `x` in `names`, or `names.len()` when absent.
pub fn find_name(names: &Vec<Vec<u8>>, x: &Vec<u8>) -> (r: usize)
    ensures
        r as int == name_index(name_views(names@), x@),
        r <= names@.len(),
{
    proof {
        lemma_name_index(name_views(names@), x@);
    }
    let mut i: usize = 0;
    while i < names.len()
        invariant
            i <= names@.len(),
            forall|j: int| 0 <= j < i ==> name_views(names@)[j] != x@,
        decreases names@.len() - i,
    {
        if bytes_eq(&names[i], x) {
            proof {
                lemma_name_index_is(name_views(names@), x@, i as int);
            }
            return i;
        }
        i = i + 1;
    }
    proof {
        lemma_name_index_is(name_views(names@), x@, names@.len() as int);
    }
    names.len()
}

/// When everything before `m` differs from `x` and `m` is either the end
/// or a hit, `m` is the first occurrence.
pub proof fn lemma_name_index_is(names: Seq<Seq<u8>>, x: Seq<u8>, m: int)
    requires
        0 <= m <= names.len(),
        forall|k: int| 0 <= k < m ==> names[k] != x,
        m < names.len() ==> names[m] == x,
    ensures
        name_index(names, x) == m,
    decreases names.len(),
{
    if names.len() > 0 && names[0] != x {
        assert forall|k: int| 0 <= k < m - 1 implies names.drop_first()[k] != x by {
            assert(names.drop_first()[k] == names[k + 1]);
        }
        assert(m - 1 < names.drop_first().len() ==> names.drop_first()[m - 1] == x);
        lemma_name_index_is(names.drop_first(), x, m - 1);
    }
}

/// Interns `x`: returns the position of its first occurrence, appending
/// it when it is new.
pub fn intern_name(names: &mut Vec<Vec<u8>>, x: Vec<u8>) -> (idx: usize)
    ensures
        name_views(final(names)@) == insert_name(name_views(old(names)@), x@),
        idx as int == name_index(name_views(old(names)@), x@),
        idx <= old(names)@.len(),
{
    proof {
        lemma_name_index(name_views(names@), x@);
    }
    let idx = find_name(names, &x);
    if idx == names.len() {
        names.push(x);
        proof {
            lemma_name_views_push(old(names)@, x);
        }
    }
    idx
}

} // verus!
