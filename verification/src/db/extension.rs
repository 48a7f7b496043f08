//! Caller-owned extension tables: their definitions and the names that
//! are reserved for the database's own tables.
use vstd::prelude::*;
use std::marker::PhantomData;
use crate::text::{is_prefix, starts_with, str_eq};

verus! {

/// `redb::ReadTransaction`, carried by the extension read transaction.
#[verifier::external_type_specification]
#[verifier::external_body]
pub struct ExReadTransaction(redb::ReadTransaction);

/// Built-in table-name prefixes unavailable to extension tables.
pub open spec fn reserved_prefixes() -> Seq<Seq<char>> {
    seq![
        "_total_migration_"@,
        "content_"@,
        "db_"@,
        "events_"@,
        "ids_"@,
        "reception_order_"@,
        "shoutbox_"@,
        "social_"@,
    ]
}

/// A name is reserved when it is `events` or starts with a reserved prefix.
pub open spec fn spec_is_reserved(name: Seq<char>) -> bool {
    name == "events"@ || exists|i: int| 0 <= i < reserved_prefixes().len() && is_prefix(#[trigger] reserved_prefixes()[i], name)
}

/// Whether an extension table name is reserved for the database.
pub fn is_reserved_extension_table(name: &str) -> (r: bool)
    ensures
        r == spec_is_reserved(name@),
{
    let ghost p = reserved_prefixes();
    assert(p[0] == "_total_migration_"@ && p[1] == "content_"@ && p[2] == "db_"@ && p[3] == "events_"@ && p[4]
        == "ids_"@ && p[5] == "reception_order_"@ && p[6] == "shoutbox_"@ && p[7] == "social_"@);
    let r = str_eq(name, "events") || starts_with(name, "_total_migration_") || starts_with(name, "content_")
        || starts_with(name, "db_") || starts_with(name, "events_") || starts_with(name, "ids_") || starts_with(
        name,
        "reception_order_",
    ) || starts_with(name, "shoutbox_") || starts_with(name, "social_");
    if !r {
        assert(!spec_is_reserved(name@)) by {
            if exists|i: int| 0 <= i < p.len() && is_prefix(#[trigger] p[i], name@) {
                let i = choose|i: int| 0 <= i < p.len() && is_prefix(#[trigger] p[i], name@);
                assert(0 <= i < 8);
            }
        }
    }
    proof {
        if r && name@ != "events"@ {
            if is_prefix(p[0], name@) {
                assert(is_prefix(reserved_prefixes()[0], name@));
            } else if is_prefix(p[1], name@) {
                assert(is_prefix(reserved_prefixes()[1], name@));
            } else if is_prefix(p[2], name@) {
                assert(is_prefix(reserved_prefixes()[2], name@));
            } else if is_prefix(p[3], name@) {
                assert(is_prefix(reserved_prefixes()[3], name@));
            } else if is_prefix(p[4], name@) {
                assert(is_prefix(reserved_prefixes()[4], name@));
            } else if is_prefix(p[5], name@) {
                assert(is_prefix(reserved_prefixes()[5], name@));
            } else if is_prefix(p[6], name@) {
                assert(is_prefix(reserved_prefixes()[6], name@));
            } else {
                assert(is_prefix(reserved_prefixes()[7], name@));
            }
        }
    }
    r
}

/// Why an extension table cannot be opened.
pub enum ExtensionError {
    /// The name is reserved for the database's own tables.
    ReservedExtensionTable { name: String },
}

/// Checks that an extension table name is not reserved.
pub fn ensure_extension_table(name: &str) -> (r: Result<(), ExtensionError>)
    ensures
        match r {
            Ok(()) => !spec_is_reserved(name@),
            Err(ExtensionError::ReservedExtensionTable { name: n }) => spec_is_reserved(name@) && n@ == name@,
        },
{
    if is_reserved_extension_table(name) {
        return Err(ExtensionError::ReservedExtensionTable { name: name.to_owned() });
    }
    Ok(())
}

/// A typed definition for a caller-owned extension table.
pub struct ExtensionTableDefinition<'a, K, V> {
    /// Caller-owned table name.
    name: &'a str,
    /// Typed key and value marker.
    marker: PhantomData<(K, V)>,
}

impl<'a, K, V> ExtensionTableDefinition<'a, K, V> {
    /// The table's name.
    pub closed spec fn spec_name(&self) -> Seq<char> {
        self.name@
    }

    /// Defines a caller-owned extension table.
    pub fn new(name: &'a str) -> (r: Self)
        ensures
            r.spec_name() == name@,
    {
        ExtensionTableDefinition { name, marker: PhantomData }
    }

    /// Returns the persistent table name.
    pub fn name(&self) -> (r: &'a str)
        ensures
            r@ == self.spec_name(),
    {
        self.name
    }
}

/// Read-only access to trusted, caller-owned extension tables.
pub struct ExtensionReadTransaction<'a> {
    /// Underlying read transaction.
    tx: &'a redb::ReadTransaction,
}

impl<'a> ExtensionReadTransaction<'a> {
    /// The extension transaction gives access through `tx`.
    pub closed spec fn wraps(&self, tx: &redb::ReadTransaction) -> bool {
        self.tx == tx
    }

    /// Wraps a read transaction.
    pub fn new(tx: &'a redb::ReadTransaction) -> (r: Self)
        ensures
            r.wraps(tx),
    {
        ExtensionReadTransaction { tx }
    }

    /// Checks that a definition names a table the caller may open.
    pub fn check_table<K, V>(&self, definition: &ExtensionTableDefinition<'_, K, V>) -> (r: Result<(), ExtensionError>)
        ensures
            match r {
                Ok(()) => !spec_is_reserved(definition.spec_name()),
                Err(ExtensionError::ReservedExtensionTable { name }) => spec_is_reserved(definition.spec_name())
                    && name@ == definition.spec_name(),
            },
    {
        ensure_extension_table(definition.name())
    }
}

} // verus!
