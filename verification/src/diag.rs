//! Diagnostics.
//!
//! Scanning and resolution accumulate diagnostics instead of stopping at
//! the first mistake, so one pass over a template reports every
//! independent problem. A diagnostic is a value; its human-readable text
//! comes from [`Diag::message`].

use vstd::prelude::*;

verus! {

/// One problem found while scanning a template or resolving its records.
#[derive(Clone, Copy, Debug, PartialEq, Eq, Structural)]
pub enum Diag {
    /// `${` was not followed by an identifier. Scanning aborts.
    ExpectedIdentifierAfterBrace,
    /// A fragment marker's identifier was not followed by `}`. Recoverable.
    FragmentUnterminated,
    /// `$` was followed by neither an identifier nor `[`. Scanning aborts.
    ExpectedIdentOrBracket,
    /// A column-list construct was not terminated by `]`. Scanning aborts.
    ExpectedClosingBracket,
    /// `$[..]` was used while no group was pending. Recoverable.
    GroupUsedNotDefined,
    /// A column-list entry was empty after trimming. Recoverable.
    EmptyGroupEntry,
    /// A new group was defined while an earlier one was still pending.
    PreviousGroupUnused,
    /// A group was still pending when the end of the template was reached.
    LastGroupUnused,
    /// A record used record-update (spread) syntax, which would hide
    /// whether every referenced name was individually supplied.
    StructUpdateSyntax,
    /// Two records were declared under the same role name; the later one
    /// wins, but the clash is reported.
    DuplicateStructName,
    /// Parameters are referenced but no record is declared under `Args`.
    ExpectedArgsStruct,
    /// Fragments are referenced but no record is declared under `Sql`.
    ExpectedSqlStruct,
    /// A record was declared under a role that is neither `Args` nor
    /// `Sql`; the payload is the index of that record in the declaration
    /// list, so a caller can name it when reporting.
    UnknownStructName(usize),
}

impl Diag {
    /// The text of this diagnostic. For `UnknownStructName` the text is
    /// the fixed part; the offending role name is reachable through the
    /// carried record index.
    pub open spec fn message_spec(self) -> Seq<char> {
        match self {
            Diag::ExpectedIdentifierAfterBrace => "expected an identifier after `{`"@,
            Diag::FragmentUnterminated => "fragment should end with `}`"@,
            Diag::ExpectedIdentOrBracket => "expected identifier or `[` after `$`"@,
            Diag::ExpectedClosingBracket => "expected closing `]`"@,
            Diag::GroupUsedNotDefined => "parameter group is used, but not defined"@,
            Diag::EmptyGroupEntry => "expected identifier between all of `$[`, every `,` and final `]`"@,
            Diag::PreviousGroupUnused => "previous parameter group is not used"@,
            Diag::LastGroupUnused => "last parameter group is not used"@,
            Diag::StructUpdateSyntax => "struct update syntax is not supported by the query_args macro"@,
            Diag::DuplicateStructName => "duplicate struct name"@,
            Diag::ExpectedArgsStruct => "expected `Args` struct"@,
            Diag::ExpectedSqlStruct => "expected `Sql` struct"@,
            Diag::UnknownStructName(_) => "unknown struct name"@,
        }
    }

    /// The human-readable text of this diagnostic.
    pub fn message(&self) -> (r: &'static str)
        ensures
            r@ == self.message_spec(),
    {
        match self {
            Diag::ExpectedIdentifierAfterBrace => "expected an identifier after `{`",
            Diag::FragmentUnterminated => "fragment should end with `}`",
            Diag::ExpectedIdentOrBracket => "expected identifier or `[` after `$`",
            Diag::ExpectedClosingBracket => "expected closing `]`",
            Diag::GroupUsedNotDefined => "parameter group is used, but not defined",
            Diag::EmptyGroupEntry => "expected identifier between all of `$[`, every `,` and final `]`",
            Diag::PreviousGroupUnused => "previous parameter group is not used",
            Diag::LastGroupUnused => "last parameter group is not used",
            Diag::StructUpdateSyntax => "struct update syntax is not supported by the query_args macro",
            Diag::DuplicateStructName => "duplicate struct name",
            Diag::ExpectedArgsStruct => "expected `Args` struct",
            Diag::ExpectedSqlStruct => "expected `Sql` struct",
            Diag::UnknownStructName(_) => "unknown struct name",
        }
    }
}

} // verus!
