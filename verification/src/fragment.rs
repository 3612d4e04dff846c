//! Static SQL fragments.
//!
//! A fragment is a fixed piece of SQL text that the renderer substitutes
//! into a `{}` hole of a rewritten template. Fragments are static text on
//! purpose: refusing dynamically built strings keeps accidental SQL
//! injection out of the fragment mechanism, so a fragment may never
//! contain a `$`.

use vstd::prelude::*;
use vstd::string::StrSliceExecFns;

verus! {

/// A static piece of SQL text, substituted verbatim into a template hole.
#[derive(Clone, Copy)]
pub struct Fragment {
    text: &'static str,
}

impl View for Fragment {
    type V = Seq<char>;

    closed spec fn view(&self) -> Seq<char> {
        self.text@
    }
}

impl Fragment {
    /// The text of this fragment.
    pub fn get(self) -> (r: &'static str)
        ensures
            r@ == self@,
    {
        self.text
    }

    /// Wraps a string as a fragment without checking it for `$`.
    /// Callers are expected to have run `fragment_allowed` first.
    pub fn new_unchecked(sql: &'static str) -> (r: Self)
        ensures
            r@ == sql@,
    {
        Fragment { text: sql }
    }
}

/// True when the string contains a `$` somewhere.
pub open spec fn contains_dollar(s: Seq<char>) -> bool {
    exists|i: int| 0 <= i < s.len() && s[i] == '$'
}

/// Whether `sql` may become a `Fragment`: it must not contain `$`,
/// so that a fragment can never smuggle in a parameter marker.
pub fn fragment_allowed(sql: &str) -> (r: bool)
    ensures
        r == !contains_dollar(sql@),
{
    let n = sql.unicode_len();
    let mut i: usize = 0;
    while i < n
        invariant
            i <= n,
            n == sql@.len(),
            forall|j: int| 0 <= j < i ==> sql@[j] != '$',
        decreases n - i,
    {
        if sql.get_char(i) == '$' {
            return false;
        }
        i = i + 1;
    }
    true
}

} // verus!
