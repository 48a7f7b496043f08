//! Schema versions and total migration: what a database of a given version
//! needs, which tables a total migration deletes, and where the content of
//! each stashed event comes from when the stash is reprocessed.
use vstd::prelude::*;
use crate::db::extension::{is_reserved_extension_table, spec_is_reserved};
use crate::text::{is_prefix, starts_with, str_eq, views};

verus! {

/// Current schema version.
pub const DB_VER: u64 = 14;

/// Versions older than this require a total migration.
pub const DB_VER_REQUIRES_TOTAL_MIGRATION: u64 = 14;

/// What opening a database at some schema version does.
#[derive(PartialEq, Eq, Structural)]
pub enum VersionAction {
    /// A new database: record the current version.
    Initialize,
    /// Nothing to do.
    UpToDate,
    /// Migrate (stashing everything for a total migration first when
    /// `total`), then record the current version.
    Migrate { total: bool },
}

/// The database was written by newer code.
pub enum VersionError {
    DbVersionTooHigh { db_ver: u64, code_ver: u64 },
}

/// Decides what a database at version `current` (`None` for a new one)
/// needs.
pub fn db_version_plan(current: Option<u64>) -> (r: Result<VersionAction, VersionError>)
    ensures
        match current {
            None => r == Ok::<VersionAction, VersionError>(VersionAction::Initialize),
            Some(v) => if DB_VER < v {
                r matches Err(VersionError::DbVersionTooHigh { db_ver, code_ver }) && db_ver == v && code_ver == DB_VER
            } else if v == DB_VER {
                r == Ok::<VersionAction, VersionError>(VersionAction::UpToDate)
            } else {
                r == Ok::<VersionAction, VersionError>(
                    VersionAction::Migrate { total: v < DB_VER_REQUIRES_TOTAL_MIGRATION },
                )
            },
        },
{
    match current {
        None => Ok(VersionAction::Initialize),
        Some(v) => {
            if DB_VER < v {
                Err(VersionError::DbVersionTooHigh { db_ver: v, code_ver: DB_VER })
            } else if v == DB_VER {
                Ok(VersionAction::UpToDate)
            } else {
                Ok(VersionAction::Migrate { total: v < DB_VER_REQUIRES_TOTAL_MIGRATION })
            }
        },
    }
}

/// The table of the materialized social post feed.
pub const SOCIAL_POST_MATERIALIZATIONS_TABLE: &'static str = "social_post_materializations";

/// A total migration keeps its temporary tables, the version table, the
/// materialized social post feed (replay does not rebuild it), and the
/// caller-owned extension tables (every name the database does not reserve).
pub open spec fn kept_in_migration(name: Seq<char>) -> bool {
    ||| is_prefix("_total_migration_"@, name)
    ||| name == "db_version"@
    ||| name == SOCIAL_POST_MATERIALIZATIONS_TABLE@
    ||| !spec_is_reserved(name)
}

/// The tables a total migration deletes, in the order given.
pub open spec fn spec_tables_to_delete(names: Seq<Seq<char>>) -> Seq<Seq<char>> {
    names.filter(|n: Seq<char>| !kept_in_migration(n))
}

/// Picks the tables a total migration deletes: all but the temporary ones,
/// the version table, the social post feed and the extension tables.
pub fn tables_to_delete(names: &Vec<String>) -> (r: Vec<String>)
    ensures
        views(r@) == spec_tables_to_delete(views(names@)),
{
    let ghost nv = views(names@);
    let mut out: Vec<String> = Vec::new();
    let mut i: usize = 0;
    while i < names.len()
        invariant
            i <= names.len(),
            nv == views(names@),
            views(out@) == nv.take(i as int).filter(|n: Seq<char>| !kept_in_migration(n)),
        decreases names.len() - i,
    {
        let ghost prev = views(out@);
        assert(nv.take(i + 1).drop_last() =~= nv.take(i as int));
        reveal_with_fuel(Seq::filter, 1);
        let keep = starts_with(names[i].as_str(), "_total_migration_") || str_eq(names[i].as_str(), "db_version")
            || str_eq(names[i].as_str(), SOCIAL_POST_MATERIALIZATIONS_TABLE) || !is_reserved_extension_table(
            names[i].as_str(),
        );
        if !keep {
            out.push(names[i].clone());
            assert(views(out@) =~= prev.push(names@[i as int]@));
        }
        i = i + 1;
    }
    assert(nv.take(names.len() as int) =~= nv);
    out
}

/// Whether an interrupted migration left its stash of events behind.
pub fn has_pending_migration_stash(names: &Vec<String>) -> (r: bool)
    ensures
        r == views(names@).contains("_total_migration_events"@),
{
    let mut i: usize = 0;
    while i < names.len()
        invariant
            i <= names.len(),
            forall|j: int| 0 <= j < i ==> names@[j]@ != "_total_migration_events"@,
        decreases names.len() - i,
    {
        if str_eq(names[i].as_str(), "_total_migration_events") {
            assert(views(names@)[i as int] == "_total_migration_events"@);
            return true;
        }
        i = i + 1;
    }
    assert(!views(names@).contains("_total_migration_events"@)) by {
        if views(names@).contains("_total_migration_events"@) {
            let j = choose|j: int| 0 <= j < views(names@).len() && views(names@)[j] == "_total_migration_events"@;
            assert(names@[j]@ == "_total_migration_events"@);
        }
    }
    false
}

/// What the content store held for a stashed event.
#[derive(Clone, Copy, PartialEq, Eq, Structural)]
pub enum StoredContent {
    Present,
    Invalid,
    Absent,
}

/// What the legacy per-event content table held for a stashed event.
#[derive(Clone, Copy, PartialEq, Eq, Structural)]
pub enum LegacyContent {
    Present,
    Invalid,
    Deleted,
    Pruned,
    Absent,
}

/// Where the content of a reprocessed event comes from.
#[derive(Clone, Copy, PartialEq, Eq, Structural)]
pub enum ContentSource {
    /// The content store's valid content is processed.
    Store,
    /// The legacy table's content, checked against the event's hash, is
    /// processed.
    Legacy,
    /// The legacy content does not match the event's hash and is skipped.
    LegacyMismatch,
    /// No usable content.
    Skip,
}

/// The content store's valid content first; invalid content is skipped;
/// without any, legacy content that is present is used if it matches the
/// event.
pub open spec fn spec_content_source(stored: StoredContent, legacy: LegacyContent, legacy_matches: bool) -> ContentSource {
    match stored {
        StoredContent::Present => ContentSource::Store,
        StoredContent::Invalid => ContentSource::Skip,
        StoredContent::Absent => if legacy == LegacyContent::Present {
            if legacy_matches {
                ContentSource::Legacy
            } else {
                ContentSource::LegacyMismatch
            }
        } else {
            ContentSource::Skip
        },
    }
}

/// Decides where a reprocessed event's content comes from.
pub fn content_source(stored: StoredContent, legacy: LegacyContent, legacy_matches: bool) -> (r: ContentSource)
    ensures
        r == spec_content_source(stored, legacy, legacy_matches),
{
    match stored {
        StoredContent::Present => ContentSource::Store,
        StoredContent::Invalid => ContentSource::Skip,
        StoredContent::Absent => {
            if legacy == LegacyContent::Present {
                if legacy_matches {
                    ContentSource::Legacy
                } else {
                    ContentSource::LegacyMismatch
                }
            } else {
                ContentSource::Skip
            }
        },
    }
}

/// What reprocessing reads of one stashed event.
#[derive(Clone, Copy)]
pub struct StashedEvent {
    pub stored: StoredContent,
    pub legacy: LegacyContent,
    pub legacy_matches: bool,
}

/// How many events used legacy content (matching or not).
pub open spec fn legacy_used(es: Seq<StashedEvent>) -> nat
    decreases es.len(),
{
    if es.len() == 0 {
        0
    } else {
        legacy_used(es.drop_last()) + if es.last().stored == StoredContent::Absent && es.last().legacy
            == LegacyContent::Present {
            1nat
        } else {
            0nat
        }
    }
}

/// The plan of reprocessing the stash: each event, in order, is processed
/// and its content taken from where `content_source` says; with the counts
/// of events processed and of legacy content used.
pub fn plan_reprocess(stash: &Vec<StashedEvent>) -> (r: (Vec<ContentSource>, u64, u64))
    ensures
        r.0@ == stash@.map_values(|e: StashedEvent| spec_content_source(e.stored, e.legacy, e.legacy_matches)),
        r.1 == stash.len(),
        r.2 == legacy_used(stash@),
{
    let mut out: Vec<ContentSource> = Vec::new();
    let mut processed: u64 = 0;
    let mut legacy: u64 = 0;
    let mut i: usize = 0;
    while i < stash.len()
        invariant
            i <= stash.len(),
            processed == i,
            legacy == legacy_used(stash@.take(i as int)),
            legacy <= i,
            out@ == stash@.take(i as int).map_values(
                |e: StashedEvent| spec_content_source(e.stored, e.legacy, e.legacy_matches),
            ),
        decreases stash.len() - i,
    {
        let e = stash[i];
        assert(stash@.take(i + 1).drop_last() =~= stash@.take(i as int));
        let src = content_source(e.stored, e.legacy, e.legacy_matches);
        if e.stored == StoredContent::Absent && e.legacy == LegacyContent::Present {
            legacy = legacy + 1;
        }
        out.push(src);
        assert(out@ =~= stash@.take(i + 1).map_values(
            |e: StashedEvent| spec_content_source(e.stored, e.legacy, e.legacy_matches),
        ));
        processed = processed + 1;
        i = i + 1;
    }
    assert(stash@.take(stash.len() as int) =~= stash@);
    (out, processed, legacy)
}

/// A total migration deletes neither the social post feed nor any
/// extension table (a name the database does not reserve), nor its stash
/// and version tables; it deletes every other table it is given, in order.
pub proof fn lemma_total_migration_keeps(names: Seq<Seq<char>>, name: Seq<char>)
    ensures
        spec_tables_to_delete(names).contains(name) <==> (names.contains(name) && !kept_in_migration(name)),
        !spec_tables_to_delete(names).contains(SOCIAL_POST_MATERIALIZATIONS_TABLE@),
        !spec_is_reserved(name) ==> !spec_tables_to_delete(names).contains(name),
{
    let f = |n: Seq<char>| !kept_in_migration(n);
    broadcast use vstd::seq_lib::group_filter_ensures;
    assert(spec_tables_to_delete(names) == names.filter(f));
    if names.contains(name) && !kept_in_migration(name) {
        let i = choose|i: int| 0 <= i < names.len() && names[i] == name;
        names.lemma_filter_contains(f, i);
    }
    if spec_tables_to_delete(names).contains(name) {
        names.lemma_filter_contains_rev(f, name);
        let j = choose|j: int| 0 <= j < names.filter(f).len() && names.filter(f)[j] == name;
        assert(f(names.filter(f)[j]));
    }
    if spec_tables_to_delete(names).contains(SOCIAL_POST_MATERIALIZATIONS_TABLE@) {
        let j = choose|j: int|
            0 <= j < names.filter(f).len() && names.filter(f)[j] == SOCIAL_POST_MATERIALIZATIONS_TABLE@;
        assert(f(names.filter(f)[j]));
    }
}

} // verus!
