//! What an engine is able to do, the wrapper that carries an engine's
//! executor, and what the wrapper decides when it is asked to write.

use vstd::prelude::*;

verus! {

/// A way to page through the records that are related to many parents.
pub trait ManyRelatedRecordsQueryBuilder {
    /// Whether the way relies on the `ROW_NUMBER` function.
    fn uses_row_number() -> bool;
}

/// Paging with the `ROW_NUMBER` function.
pub struct ManyRelatedRecordsWithRowNumber {}

/// Paging with one query for each parent, joined by `UNION ALL`.
pub struct ManyRelatedRecordsWithUnionAll {}

impl ManyRelatedRecordsQueryBuilder for ManyRelatedRecordsWithRowNumber {
    fn uses_row_number() -> (uses: bool)
        ensures
            uses,
    {
        true
    }
}

impl ManyRelatedRecordsQueryBuilder for ManyRelatedRecordsWithUnionAll {
    fn uses_row_number() -> (uses: bool)
        ensures
            !uses,
    {
        false
    }
}

pub trait SqlCapabilities {
    /// Tells the databases with a `ROW_NUMBER` function from those without,
    /// for the paging of related records.
    type ManyRelatedRecordsBuilder: ManyRelatedRecordsQueryBuilder;
}

/// A wrapper for the executor of a relational database.
pub struct SqlDatabase<T> where T: SqlCapabilities {
    pub executor: T,
}

impl<T> SqlDatabase<T> where T: SqlCapabilities {
    pub fn new(executor: T) -> (database: Self)
        ensures
            database.executor == executor,
    {
        Self { executor }
    }
}

/// The kinds of write that a database can be asked for.
#[derive(Clone, Copy, Debug, PartialEq, Eq, Structural)]
pub enum WriteQueryKind {
    CreateRecord,
    UpdateRecord,
    UpsertRecord,
    UpdateManyRecords,
    DeleteRecord,
    DeleteManyRecords,
    ResetData,
}

/// How the search for the record of an upsert ended.
#[derive(Clone, Copy, Debug, PartialEq, Eq, Structural)]
pub enum Lookup {
    Found,
    NotFound,
    Failed,
}

/// The operation that a write runs in its transaction.
#[derive(Clone, Copy, Debug, PartialEq, Eq, Structural)]
pub enum WriteAction {
    Create,
    Update,
    UpdateMany,
    Delete,
    DeleteMany,
    Truncate,
}

/// What the result of a write identifies.
#[derive(Clone, Copy, Debug, PartialEq, Eq, Structural)]
pub enum IdentifierKind {
    Id,
    Count,
    Record,
    Nothing,
}

/// The type of the result of a write.
#[derive(Clone, Copy, Debug, PartialEq, Eq, Structural)]
pub enum WriteQueryResultType {
    Create,
    Update,
    Delete,
    Many,
    Unit,
}

/// What a write does and what it reports.
#[derive(Clone, Copy, Debug, PartialEq, Eq, Structural)]
pub struct WritePlan {
    pub action: WriteAction,
    pub identifier: IdentifierKind,
    pub typ: WriteQueryResultType,
}

/// The plan for a write. An upsert updates the record that was found and
/// creates the one that was not; where the search failed otherwise, there
/// is no plan and the failure is the outcome. For the other kinds the
/// search has no part.
pub open spec fn planned_write(kind: WriteQueryKind, lookup: Lookup) -> Option<WritePlan> {
    match kind {
        WriteQueryKind::CreateRecord => Some(
            WritePlan {
                action: WriteAction::Create,
                identifier: IdentifierKind::Id,
                typ: WriteQueryResultType::Create,
            },
        ),
        WriteQueryKind::UpdateRecord => Some(
            WritePlan {
                action: WriteAction::Update,
                identifier: IdentifierKind::Id,
                typ: WriteQueryResultType::Update,
            },
        ),
        WriteQueryKind::UpsertRecord => match lookup {
            Lookup::Found => Some(
                WritePlan {
                    action: WriteAction::Update,
                    identifier: IdentifierKind::Id,
                    typ: WriteQueryResultType::Update,
                },
            ),
            Lookup::NotFound => Some(
                WritePlan {
                    action: WriteAction::Create,
                    identifier: IdentifierKind::Id,
                    typ: WriteQueryResultType::Create,
                },
            ),
            Lookup::Failed => None,
        },
        WriteQueryKind::UpdateManyRecords => Some(
            WritePlan {
                action: WriteAction::UpdateMany,
                identifier: IdentifierKind::Count,
                typ: WriteQueryResultType::Many,
            },
        ),
        WriteQueryKind::DeleteRecord => Some(
            WritePlan {
                action: WriteAction::Delete,
                identifier: IdentifierKind::Record,
                typ: WriteQueryResultType::Delete,
            },
        ),
        WriteQueryKind::DeleteManyRecords => Some(
            WritePlan {
                action: WriteAction::DeleteMany,
                identifier: IdentifierKind::Count,
                typ: WriteQueryResultType::Many,
            },
        ),
        WriteQueryKind::ResetData => Some(
            WritePlan {
                action: WriteAction::Truncate,
                identifier: IdentifierKind::Nothing,
                typ: WriteQueryResultType::Unit,
            },
        ),
    }
}

/// Whether a write has to search for its record before it can be planned.
pub fn needs_lookup(kind: WriteQueryKind) -> (needed: bool)
    ensures
        needed == (kind == WriteQueryKind::UpsertRecord),
{
    match kind {
        WriteQueryKind::UpsertRecord => true,
        _ => false,
    }
}

/// Plans a write.
pub fn plan_write(kind: WriteQueryKind, lookup: Lookup) -> (plan: Option<WritePlan>)
    ensures
        plan == planned_write(kind, lookup),
{
    let (action, identifier, typ) = match kind {
        WriteQueryKind::CreateRecord => (
            WriteAction::Create,
            IdentifierKind::Id,
            WriteQueryResultType::Create,
        ),
        WriteQueryKind::UpdateRecord => (
            WriteAction::Update,
            IdentifierKind::Id,
            WriteQueryResultType::Update,
        ),
        WriteQueryKind::UpsertRecord => match lookup {
            Lookup::Found => (WriteAction::Update, IdentifierKind::Id, WriteQueryResultType::Update),
            Lookup::NotFound => (
                WriteAction::Create,
                IdentifierKind::Id,
                WriteQueryResultType::Create,
            ),
            Lookup::Failed => { return None; },
        },
        WriteQueryKind::UpdateManyRecords => (
            WriteAction::UpdateMany,
            IdentifierKind::Count,
            WriteQueryResultType::Many,
        ),
        WriteQueryKind::DeleteRecord => (
            WriteAction::Delete,
            IdentifierKind::Record,
            WriteQueryResultType::Delete,
        ),
        WriteQueryKind::DeleteManyRecords => (
            WriteAction::DeleteMany,
            IdentifierKind::Count,
            WriteQueryResultType::Many,
        ),
        WriteQueryKind::ResetData => (
            WriteAction::Truncate,
            IdentifierKind::Nothing,
            WriteQueryResultType::Unit,
        ),
    };
    Some(WritePlan { action, identifier, typ })
}

} // verus!
