//! Small records and errors of the event database.
use vstd::prelude::*;
use crate::db::keys::RostraId;
use crate::text::{push_str, str_eq};

verus! {

/// Aggregate data usage record for an identity.
#[derive(Clone, Copy)]
pub struct IdsDataUsageRecord {
    /// Total size of event metadata (envelopes) in bytes.
    pub metadata_size: u64,
    /// Total size of content (payloads) in bytes.
    pub content_size: u64,
}

/// Marker record for the `social_posts_replies` index.
#[derive(Clone, Copy)]
pub struct SocialPostsRepliesRecord;

/// Marker record for the `social_posts_reactions` index.
#[derive(Clone, Copy)]
pub struct SocialPostsReactionsRecord;

/// Marker record for the `events_heads` table.
#[derive(Clone, Copy)]
pub struct EventsHeadsTableRecord;

/// Marker record for the `ids_followers` table.
#[derive(Clone, Copy)]
pub struct IdsFollowersRecord {}

/// When an identity was unfollowed.
#[derive(Clone, Copy)]
pub struct IdsUnfollowedRecord {
    pub ts: u64,
}

/// A persona of an identity.
pub struct IdsPersonaRecord {
    pub ts: u64,
    pub display_name: String,
}

/// Error returned after a current-state publisher closes.
#[derive(Clone, Copy, PartialEq, Eq, Structural)]
pub struct CurrentStateClosed;

impl CurrentStateClosed {
    /// The error's message.
    pub fn message(&self) -> (r: String)
        ensures
            r@ == "current-state publisher is closed"@,
    {
        let mut s = String::new();
        push_str(&mut s, "current-state publisher is closed");
        s
    }
}

/// A table that cannot be dumped.
pub enum TableDumpError {
    /// The name is not one of the dumpable tables.
    UnknownTable { name: String },
}

/// The tables that can be dumped for debugging.
pub open spec fn dumpable_tables() -> Seq<Seq<char>> {
    seq![
        "events"@,
        "content_store"@,
        "events_content_state"@,
        "events_content_missing"@,
        "social_posts"@,
        "social_posts_replies"@,
        "social_posts_reactions"@,
    ]
}

/// Checks that a table can be dumped; unknown names are an error carrying
/// the name.
pub fn check_dump_table(name: &str) -> (r: Result<(), TableDumpError>)
    ensures
        match r {
            Ok(()) => dumpable_tables().contains(name@),
            Err(TableDumpError::UnknownTable { name: n }) => !dumpable_tables().contains(name@) && n@ == name@,
        },
{
    let known = str_eq(name, "events") || str_eq(name, "content_store") || str_eq(name, "events_content_state")
        || str_eq(name, "events_content_missing") || str_eq(name, "social_posts") || str_eq(
        name,
        "social_posts_replies",
    ) || str_eq(name, "social_posts_reactions");
    let ghost d = dumpable_tables();
    assert(d[0] == "events"@ && d[1] == "content_store"@ && d[2] == "events_content_state"@ && d[3]
        == "events_content_missing"@ && d[4] == "social_posts"@ && d[5] == "social_posts_replies"@ && d[6]
        == "social_posts_reactions"@);
    if known {
        Ok(())
    } else {
        assert(!d.contains(name@)) by {
            if d.contains(name@) {
                let j = choose|j: int| 0 <= j < d.len() && d[j] == name@;
                assert(0 <= j < 7);
            }
        }
        Err(TableDumpError::UnknownTable { name: name.to_owned() })
    }
}

/// The web of trust: direct followees and the followees of followees not
/// followed directly.
pub struct WotData {
    /// Direct followees.
    pub followees: Vec<RostraId>,
    /// Extended followees (followees of followees), excluding direct
    /// followees.
    pub extended: Vec<RostraId>,
}

impl WotData {
    /// Returns true if the given id is in our web of trust (self, direct
    /// followee, or extended).
    pub fn contains(&self, id: RostraId, self_id: RostraId) -> (r: bool)
        ensures
            r == (id == self_id || self.followees@.contains(id) || self.extended@.contains(id)),
    {
        if id == self_id {
            return true;
        }
        let mut i: usize = 0;
        while i < self.followees.len()
            invariant
                i <= self.followees.len(),
                forall|j: int| 0 <= j < i ==> self.followees@[j] != id,
            decreases self.followees.len() - i,
        {
            if self.followees[i] == id {
                assert(self.followees@[i as int] == id);
                return true;
            }
            i = i + 1;
        }
        let mut k: usize = 0;
        while k < self.extended.len()
            invariant
                k <= self.extended.len(),
                forall|j: int| 0 <= j < self.followees.len() ==> self.followees@[j] != id,
                forall|j: int| 0 <= j < k ==> self.extended@[j] != id,
            decreases self.extended.len() - k,
        {
            if self.extended[k] == id {
                assert(self.extended@[k as int] == id);
                return true;
            }
            k = k + 1;
        }
        false
    }

    /// Returns the total number of ids in the web of trust (excluding self).
    pub fn len(&self) -> (r: usize)
        requires
            self.followees.len() + self.extended.len() <= usize::MAX,
        ensures
            r == self.followees.len() + self.extended.len(),
    {
        self.followees.len() + self.extended.len()
    }

    /// Returns true if there are no followees.
    pub fn is_empty(&self) -> (r: bool)
        ensures
            r == (self.followees.len() == 0),
    {
        self.followees.len() == 0
    }
}

/// What a post that deletes another carries as its body.
#[derive(Clone, Copy, PartialEq, Eq, Structural)]
pub enum DeletingPostBody {
    Absent,
    Empty,
    Whitespace,
    Edit,
}

impl DeletingPostBody {
    /// The deleting post replaces the deleted one with new text.
    pub fn is_edit(self) -> (r: bool)
        ensures
            r == (self == DeletingPostBody::Edit),
    {
        match self {
            DeletingPostBody::Edit => true,
            _ => false,
        }
    }
}

/// Opening a database with an identity other than the one it was created
/// for.
#[derive(Debug, PartialEq, Eq, Structural)]
pub enum DbIdError {
    /// Provided Id does not match one used previously.
    DbIdMismatch,
}

/// Checks the identity a database is opened with against the one it
/// stores: the same identity passes, another one is refused, and a database
/// that stores none records the given one (`Ok(Some(id))`: the identity to
/// write).
pub fn verify_self_id(stored: Option<RostraId>, self_id: RostraId) -> (r: Result<Option<RostraId>, DbIdError>)
    ensures
        r == match stored {
            Some(s) => if s == self_id {
                Ok::<Option<RostraId>, DbIdError>(None)
            } else {
                Err(DbIdError::DbIdMismatch)
            },
            None => Ok(Some(self_id)),
        },
{
    match stored {
        Some(s) => if s == self_id {
            Ok(None)
        } else {
            Err(DbIdError::DbIdMismatch)
        },
        None => Ok(Some(self_id)),
    }
}

} // verus!
