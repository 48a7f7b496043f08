use rostra::db::content::{
    content_plan, content_wanted, event_effects, process_event_state, ContentWantState, EventContentResult,
    EventContentState, InsertEventOutcome, MissingContent, ProcessEventState, StoreRecord, MAX_CONTENT_LEN,
};
use rostra::db::extension::{ensure_extension_table, is_reserved_extension_table, ExtensionTableDefinition};
use rostra::db::materialization::{FeedError, MaterializationFeed, SocialPostMaterializationCursor};
use rostra::db::migration::{
    content_source, db_version_plan, has_pending_migration_stash, plan_reprocess, tables_to_delete,
    ContentSource, LegacyContent, StashedEvent, StoredContent, VersionAction, VersionError, DB_VER,
};
use rostra::db::news::{
    calculate_news_score, cap_creation_timestamp, NewsRankPaginationCursor, RankTables, VoteRecord, VoteTables,
    NEWS_MAX_AGE_SECS,
};
use rostra::db::nodes::IdNodes;
use rostra::db::paginate::{paginate_table, paginate_table_rev};
use rostra::db::ranges::lexicographic_successor;
use rostra::db::reception::{ReceptionError, ReceptionOrderCounter, ReceptionOrdered};
use rostra::db::records::{check_dump_table, verify_self_id, DbIdError, CurrentStateClosed, DeletingPostBody, TableDumpError, WotData};
use rostra::db::social::{EventPaginationCursor, ReceivedAtPaginationCursor, SocialPostEvent, SocialTables};

// ── pagination ──────────────────────────────────────────────────

fn table() -> (Vec<u64>, Vec<&'static str>) {
    (vec![0, 3, 7], vec!["Zero", "Three", "Seven"])
}

fn page(cursor: Option<u64>, limit: usize, keep: &[bool], rev: bool) -> (Vec<String>, Option<u64>) {
    let (keys, values) = table();
    let keep = keep.to_vec();
    let (pos, next) = if rev {
        paginate_table_rev(&keys, &keep, cursor, limit)
    } else {
        paginate_table(&keys, &keep, cursor, limit)
    };
    (pos.iter().map(|&i| format!("{}-{}", keys[i], values[i])).collect(), next)
}

const ALL: [bool; 3] = [true, true, true];

#[test]
fn paginate() {
    assert_eq!(page(None, 0, &ALL, false), (vec![], Some(0)));
    assert_eq!(page(None, 1, &ALL, false), (vec!["0-Zero".into()], Some(3)));
    assert_eq!(page(Some(0), 0, &ALL, false), (vec![], Some(0)));
    assert_eq!(page(Some(0), 1, &ALL, false), (vec!["0-Zero".into()], Some(3)));
    assert_eq!(page(Some(3), 2, &ALL, false), (vec!["3-Three".into(), "7-Seven".into()], None));
    assert_eq!(page(Some(3), 3, &ALL, false), (vec!["3-Three".into(), "7-Seven".into()], None));
    assert_eq!(page(Some(40), 3, &ALL, false), (vec![], None));
    // keys divisible by two only
    assert_eq!(page(None, 2, &[true, false, false], false), (vec!["0-Zero".into()], None));
}

#[test]
fn paginate_rev() {
    assert_eq!(page(None, 0, &ALL, true), (vec![], Some(7)));
    assert_eq!(page(None, 1, &ALL, true), (vec!["7-Seven".into()], Some(3)));
    assert_eq!(page(Some(7), 0, &ALL, true), (vec![], Some(7)));
    assert_eq!(page(Some(7), 1, &ALL, true), (vec!["7-Seven".into()], Some(3)));
    assert_eq!(page(Some(3), 2, &ALL, true), (vec!["3-Three".into(), "0-Zero".into()], None));
    assert_eq!(page(Some(3), 3, &ALL, true), (vec!["3-Three".into(), "0-Zero".into()], None));
    assert_eq!(page(None, 2, &[true, false, false], true), (vec!["0-Zero".into()], None));
}

#[test]
fn paging_in_two_steps_matches_one_step() {
    let first = page(None, 1, &ALL, false);
    let second = page(first.1, 2, &ALL, false);
    let whole = page(None, 3, &ALL, false);
    let mut joined = first.0.clone();
    joined.extend(second.0);
    assert_eq!((joined, second.1), whole);
}

#[test]
fn posts_with_one_timestamp_are_paged_by_event_id() {
    let c = |ts: u64, event_id: u128| EventPaginationCursor { ts, event_id };
    let keys = vec![c(1, 9), c(2, 1), c(2, 5), c(3, 0)];
    let keep = vec![true; 4];
    let (pos, next) = paginate_table(&keys, &keep, Some(c(2, 2)), 1);
    assert_eq!(pos, vec![2]);
    assert_eq!(next, Some(c(3, 0)));
    let (pos, next) = paginate_table_rev(&keys, &keep, Some(c(2, 4)), 2);
    assert_eq!(pos, vec![1, 0]);
    assert_eq!(next, None);
}

#[test]
fn received_posts_are_paged_by_reception_order() {
    let c = |ts: u64, reception_order: u64, event_id: u128| ReceivedAtPaginationCursor { ts, reception_order, event_id };
    let keys = vec![c(5, 0, 7), c(5, 1, 2), c(5, 2, 1), c(6, 0, 0)];
    let keep = vec![true, false, true, true];
    let (pos, next) = paginate_table(&keys, &keep, Some(c(5, 1, 0)), 2);
    assert_eq!(pos, vec![2, 3]);
    assert_eq!(next, None);
    let (pos, next) = paginate_table_rev(&keys, &keep, None, 1);
    assert_eq!(pos, vec![3]);
    assert_eq!(next, Some(c(5, 2, 1)));
}

#[test]
fn news_ranks_page_from_the_highest_score() {
    let c = |score: i64, author: u128, id: u128| NewsRankPaginationCursor { score, post_id: (author, id) };
    let keys = vec![c(-5, 1, 1), c(0, 2, 2), c(10, 1, 3), c(10, 2, 0)];
    let keep = vec![true; 4];
    let (pos, next) = paginate_table_rev(&keys, &keep, None, 3);
    assert_eq!(pos, vec![3, 2, 1]);
    assert_eq!(next, Some(c(-5, 1, 1)));
}

// ── event processing ────────────────────────────────────────────

fn inserted(is_deleted: bool, was_missing: bool, reverted: bool, missing: usize) -> InsertEventOutcome {
    InsertEventOutcome::Inserted {
        was_missing,
        is_deleted,
        deleted_parent: if reverted { Some(9) } else { None },
        reverted_parent_content: if reverted { Some(vec![1, 2]) } else { None },
        missing_parents: vec![5; missing],
    }
}

#[test]
fn content_state_after_insert() {
    let new = inserted(false, false, false, 0);
    assert!(process_event_state(&new, true, 10, false) == ProcessEventState::NoContent);
    assert!(process_event_state(&new, false, MAX_CONTENT_LEN + 1, true) == ProcessEventState::Pruned);
    assert!(process_event_state(&new, false, MAX_CONTENT_LEN + 1, false) == ProcessEventState::Deleted);
    assert!(process_event_state(&new, false, MAX_CONTENT_LEN, false) == ProcessEventState::New);
    assert!(process_event_state(&inserted(true, false, false, 0), false, 1, false) == ProcessEventState::Deleted);
    assert!(process_event_state(&InsertEventOutcome::AlreadyPresent, false, 1, false) == ProcessEventState::Existing);
}

#[test]
fn wants_content_by_state() {
    assert!(matches!(ProcessEventState::New.wants_content(), ContentWantState::Wants));
    assert!(matches!(ProcessEventState::Existing.wants_content(), ContentWantState::MaybeWants));
    assert!(matches!(ProcessEventState::Pruned.wants_content(), ContentWantState::DoesNotWant));
    assert!(matches!(ProcessEventState::Deleted.wants_content(), ContentWantState::DoesNotWant));
    assert!(matches!(ProcessEventState::NoContent.wants_content(), ContentWantState::DoesNotWant));
    assert!(content_wanted(ProcessEventState::Existing, true, false));
    assert!(!content_wanted(ProcessEventState::Existing, true, true));
    assert!(!content_wanted(ProcessEventState::Existing, false, false));
    assert!(content_wanted(ProcessEventState::New, false, true));
}

#[test]
fn effects_of_an_inserted_event() {
    let e = event_effects(&inserted(false, false, true, 2), true, ProcessEventState::New);
    assert!(e.record_self_event && e.new_self_head && e.has_missing_parents && e.mark_content_missing);
    assert_eq!(e.revert_parent, Some(9));
    let e = event_effects(&inserted(false, true, false, 0), true, ProcessEventState::Existing);
    assert!(e.record_self_event && !e.new_self_head && !e.has_missing_parents && !e.mark_content_missing);
    let e = event_effects(&inserted(true, false, false, 0), true, ProcessEventState::Deleted);
    assert!(!e.record_self_event && !e.new_self_head);
    let e = event_effects(&InsertEventOutcome::AlreadyPresent, true, ProcessEventState::Existing);
    assert!(!e.record_self_event && e.revert_parent.is_none());
    let v = inserted(false, false, true, 0).validate();
    assert!(matches!(v, InsertEventOutcome::Inserted { .. }));
}

#[test]
fn received_content_is_processed_and_stored_once() {
    let p = content_plan(true, 10, true, true, true, false);
    assert!(p.process && p.store == Some(StoreRecord::Present));
    let p = content_plan(true, 10, true, true, false, false);
    assert!(p.store == Some(StoreRecord::Invalid));
    let p = content_plan(true, 10, true, true, true, true);
    assert!(p.process && p.store.is_none());
    assert!(!content_plan(false, 10, true, true, true, false).process);
    assert!(!content_plan(true, MAX_CONTENT_LEN, true, true, true, false).process);
    assert!(!content_plan(true, 10, false, true, true, false).process);
}

#[test]
fn failed_fetch_reschedules_and_counts() {
    let mut m = MissingContent::new();
    m.mark_missing(1, 100);
    m.mark_missing(2, 50);
    assert_eq!(m.peek_next_missing_content(), Some((50, 2)));
    m.record_failed_content_fetch(2, 50, 60, 500);
    assert_eq!(m.peek_next_missing_content(), Some((100, 1)));
    match m.get_state(2) {
        Some(EventContentState::Missing { last_fetch_attempt, fetch_attempt_count, next_fetch_attempt }) => {
            assert_eq!(last_fetch_attempt, Some(60));
            assert_eq!(fetch_attempt_count, 1);
            assert_eq!(next_fetch_attempt, 500);
        }
        _ => panic!("still missing"),
    }
    // unknown events are left alone
    m.record_failed_content_fetch(3, 0, 1, 2);
    assert!(m.get_state(3).is_none());
    assert_eq!(MissingContent::new().peek_next_missing_content(), None);
}

#[test]
fn received_content_leaves_the_missing_queue() {
    let mut m = MissingContent::new();
    m.mark_missing(1, 100);
    m.mark_missing(2, 50);
    m.content_received(2, true);
    assert!(m.get_state(2).is_none());
    assert_eq!(m.peek_next_missing_content(), Some((100, 1)));
    // content that could not be processed keeps its marker but leaves the queue
    m.content_received(1, false);
    assert!(m.get_state(1).is_some());
    assert_eq!(m.peek_next_missing_content(), None);
}

#[test]
fn content_lookup_results() {
    let p = EventContentResult::Present(vec![1]);
    assert!(p.is_present() && !p.is_deleted() && p.content() == Some(&vec![1]));
    let i = EventContentResult::Invalid(vec![2]);
    assert!(!i.is_present() && i.content() == Some(&vec![2]));
    let d = EventContentResult::Deleted { deleted_by: 4 };
    assert!(d.is_deleted() && d.content().is_none());
    assert!(EventContentResult::Pruned.content().is_none());
    assert!(EventContentResult::Missing.content().is_none());
}

// ── social posts ────────────────────────────────────────────────

fn post(id: u128, reply_to: Option<u128>, text: bool, reaction: bool) -> SocialPostEvent {
    SocialPostEvent { event_id: id, ts: 10 + id as u64, reply_to, has_text: text, has_reaction: reaction }
}

#[test]
fn replies_and_reactions_are_counted_and_reverted() {
    let mut t = SocialTables::new();
    assert!(t.social_post_inserted(&post(1, None, true, false)).is_ok());
    assert!(t.social_post_inserted(&post(2, Some(1), true, false)).is_ok());
    assert!(t.social_post_inserted(&post(3, Some(1), false, true)).is_ok());
    assert!(t.social_post_inserted(&post(4, Some(1), true, true)).is_ok());
    let c = t.get_counts(1);
    assert_eq!((c.reply_count, c.reaction_count), (2, 2));
    assert!(t.social_post_reverted(&post(4, Some(1), true, true)).is_ok());
    let c = t.get_counts(1);
    assert_eq!((c.reply_count, c.reaction_count), (1, 1));
    let c = t.get_counts(77);
    assert_eq!((c.reply_count, c.reaction_count), (0, 0));
    // reverting what was never counted fails and changes nothing
    assert!(t.social_post_reverted(&post(5, Some(77), true, false)).is_err());
    let c = t.get_counts(1);
    assert_eq!((c.reply_count, c.reaction_count), (1, 1));
}

// ── news ────────────────────────────────────────────────────────

#[test]
fn news_score_formula() {
    assert_eq!(calculate_news_score(0, 0, 0), 10);
    assert_eq!(calculate_news_score(0, 1, 0), 10010);
    assert_eq!(calculate_news_score(0, 1, 3600), 5005);
    assert_eq!(calculate_news_score(0, 1, 3599), 10010);
    assert_eq!(calculate_news_score(0, -1, 3600 * 2), -3330);
    assert_eq!(calculate_news_score(100, 3, 50), 30010);
    assert_eq!(calculate_news_score(0, i64::MAX, 0), i64::MAX);
    assert_eq!(calculate_news_score(0, i64::MIN, 0), i64::MIN);
    assert_eq!(cap_creation_timestamp(5, 3), 3);
    assert_eq!(cap_creation_timestamp(2, 3), 2);
}

fn vote(ts: u64, id: u128, target: (u128, u128), score: i32) -> VoteRecord {
    VoteRecord { ts, event_id: id, target, score }
}

#[test]
fn only_the_latest_vote_counts() {
    let mut v = VoteTables::new();
    let post = (1u128, 100u128);
    let n = v.apply_social_vote(7, vote(10, 1, post, 1)).ok().unwrap();
    assert_eq!(n, vec![post]);
    assert_eq!(v.get_social_vote_sum(post), (10, 1));
    // an older vote is ignored
    assert!(v.apply_social_vote(7, vote(5, 2, post, -1)).ok().unwrap().is_empty());
    assert_eq!(v.get_social_vote_sum(post), (10, 1));
    // a newer vote replaces it
    v.apply_social_vote(7, vote(20, 3, post, -1)).ok().unwrap();
    assert_eq!(v.get_social_vote_sum(post), (20, -1));
    // a second voter adds up
    v.apply_social_vote(8, vote(30, 4, post, 1)).ok().unwrap();
    assert_eq!(v.get_social_vote_sum(post).1, 0);
    // same vote again changes nothing but the winner
    assert!(v.apply_social_vote(8, vote(31, 5, post, 1)).ok().unwrap().is_empty());
    // the same event id under another author is another post
    let other = (2u128, 100u128);
    let n = v.apply_social_vote(8, vote(40, 6, other, 1)).ok().unwrap();
    assert_eq!(n, vec![post, other]);
    assert_eq!(v.get_social_vote_sum(post).1, -1);
    assert_eq!(v.get_social_vote_sum(other).1, 1);
}

#[test]
fn latest_vote_wins_in_any_arrival_order() {
    let post = (1u128, 100u128);
    let votes = [vote(10, 1, post, 1), vote(30, 3, post, -1), vote(20, 2, post, 1)];
    let orders: [[usize; 3]; 6] = [[0, 1, 2], [0, 2, 1], [1, 0, 2], [1, 2, 0], [2, 0, 1], [2, 1, 0]];
    for order in orders {
        let mut v = VoteTables::new();
        for i in order {
            v.apply_social_vote(7, votes[i]).ok().unwrap();
        }
        assert_eq!(v.get_social_vote_sum(post).1, -1);
    }
}

#[test]
fn rank_tables_follow_scores_and_age() {
    let mut r = RankTables::new();
    let p = (1u128, 2u128);
    r.upsert_social_news_rank(p, 0, 10);
    assert_eq!(r.get_rank(p), Some((0, 10)));
    assert!(r.recalculate_news_post_score(p, 1, 3600));
    assert_eq!(r.get_rank(p), Some((0, 5005)));
    assert!(!r.recalculate_news_post_score(p, 1, NEWS_MAX_AGE_SECS + 1));
    assert_eq!(r.get_rank(p), None);
    assert!(!r.recalculate_news_post_score(p, 1, 0));
    r.upsert_social_news_rank(p, 5, 1);
    r.remove_social_news_rank(p);
    assert_eq!(r.get_rank(p), None);
}

// ── nodes ───────────────────────────────────────────────────────

#[test]
fn nodes_keep_latest_announcement_and_at_most_ten() {
    let mut n = IdNodes::new();
    n.announce(1, 100);
    n.announce(1, 50);
    assert_eq!(n.get_id_endpoints()[0].1.announcement_ts, 100);
    n.announce(1, 150);
    assert_eq!(n.get_id_endpoints()[0].1.announcement_ts, 150);
    for i in 2..=11u128 {
        n.announce(i, 200 + i as u64);
    }
    let nodes = n.get_id_endpoints();
    assert_eq!(nodes.len(), 10);
    assert!(nodes.iter().all(|(id, _)| *id != 1));
    n.announce(12, 1);
    let nodes = n.get_id_endpoints();
    assert_eq!(nodes.len(), 10);
    assert!(nodes.iter().all(|(id, _)| *id != 12));
}

#[test]
fn endpoints_come_ordered_by_time_then_id() {
    let mut n = IdNodes::new();
    n.announce(3, 5);
    n.announce(1, 5);
    n.announce(2, 3);
    let order: Vec<(u128, u64)> = n.get_id_endpoints().iter().map(|(id, r)| (*id, r.announcement_ts)).collect();
    assert_eq!(order, vec![(2, 3), (1, 5), (3, 5)]);
    // with eleven nodes, the oldest (time 3) is dropped
    for i in 10..18u128 {
        n.announce(i, 100);
    }
    assert_eq!(n.get_id_endpoints().len(), 10);
    n.announce(40, 4);
    let ids: Vec<u128> = n.get_id_endpoints().iter().map(|(id, _)| *id).collect();
    assert_eq!(ids.len(), 10);
    assert!(!ids.contains(&40));
}

// ── reception order ─────────────────────────────────────────────

#[test]
fn each_call_hands_out_a_new_reception_order() {
    let mut c = ReceptionOrderCounter::new(5);
    assert_eq!(c.next_reception_order(), 5);
    assert_eq!(c.next_reception_order(), 6);
    assert_eq!(c.next_reception_order(), 7);
}

#[test]
fn reception_orders_are_allocated_in_sequence() {
    let mut r = ReceptionOrdered::new();
    assert_eq!(r.peek_reception_order(), 0);
    assert_eq!(r.insert_reception_ordered(10, 1).ok(), Some(0));
    assert_eq!(r.insert_reception_ordered(10, 2).ok(), Some(1));
    assert_eq!(r.insert_reception_ordered(5, 3).ok(), Some(2));
    assert_eq!(r.peek_reception_order(), 3);
    assert!(!matches!(r.insert_reception_ordered(10, 4), Err(ReceptionError::ReceptionOrderCollision { .. })));
}

// ── materialization feed ────────────────────────────────────────

#[test]
fn total_rebuild_preserves_feed_and_suppresses_replay() {
    let mut f = MaterializationFeed::new();
    assert!(f.append_social_post_materialization(60, true).is_ok());
    let before = f.scan_social_post_materializations(None, 10).ok().unwrap();
    assert!(!tables_to_delete(&vec!["social_post_materializations".to_string()]).contains(&"social_post_materializations".to_string()));
    f.replay_social_posts(&vec![60]);
    let after = f.scan_social_post_materializations(None, 10).ok().unwrap();
    assert_eq!(after.items, before.items);
    assert_eq!(after.scanned_through.position(), before.scanned_through.position());
    assert_eq!(after.exhausted, before.exhausted);
}

#[test]
fn materialization_feed_appends_and_scans() {
    let mut f = MaterializationFeed::new();
    assert!(f.append_social_post_materialization(11, false).is_ok());
    let p = f.scan_social_post_materializations(None, 10).ok().unwrap();
    assert!(p.items.is_empty() && p.exhausted && p.scanned_through.position() == 0);
    for id in [11u128, 12, 13] {
        assert!(f.append_social_post_materialization(id, true).is_ok());
    }
    let p = f.scan_social_post_materializations(None, 2).ok().unwrap();
    assert_eq!(p.items, vec![11, 12]);
    assert_eq!(p.scanned_through.position(), 2);
    assert!(!p.exhausted);
    let p = f.scan_social_post_materializations(Some(p.scanned_through), 2).ok().unwrap();
    assert_eq!(p.items, vec![13]);
    assert_eq!(p.scanned_through.position(), 3);
    assert!(p.exhausted);
    let p = f.scan_social_post_materializations(Some(SocialPostMaterializationCursor::at(1)), 2).ok().unwrap();
    assert_eq!(p.items, vec![12, 13]);
    assert!(p.exhausted);
    match f.scan_social_post_materializations(Some(SocialPostMaterializationCursor::at(4)), 1) {
        Err(FeedError::CursorOutOfRange { position, durable_next }) => assert_eq!((position, durable_next), (4, 3)),
        _ => panic!("expected out of range"),
    }
    assert!(matches!(
        f.scan_social_post_materializations(None, 4097),
        Err(FeedError::ScanLimitTooHigh { requested: 4097, maximum: 4096 })
    ));
}

#[test]
fn materialization_feed_reports_gaps_and_overflow() {
    let f = MaterializationFeed::from_rows(vec![(0, 1), (2, 3)]).unwrap();
    match f.scan_social_post_materializations(None, 5) {
        Err(FeedError::LogGap { expected, actual }) => assert_eq!((expected, actual), (1, 2)),
        _ => panic!("expected a gap"),
    }
    assert!(MaterializationFeed::from_rows(vec![(1, 1), (1, 2)]).is_none());
    let mut full = MaterializationFeed::from_rows(vec![(u64::MAX - 1, 1)]).unwrap();
    assert!(matches!(full.append_social_post_materialization(2, true), Err(FeedError::Overflow)));
}

// ── migrations ──────────────────────────────────────────────────

#[test]
fn version_plans() {
    assert!(matches!(db_version_plan(None), Ok(VersionAction::Initialize)));
    assert!(matches!(db_version_plan(Some(DB_VER)), Ok(VersionAction::UpToDate)));
    assert!(matches!(db_version_plan(Some(3)), Ok(VersionAction::Migrate { total: true })));
    match db_version_plan(Some(DB_VER + 1)) {
        Err(VersionError::DbVersionTooHigh { db_ver, code_ver }) => assert_eq!((db_ver, code_ver), (DB_VER + 1, DB_VER)),
        _ => panic!("expected too high"),
    }
}

#[test]
fn total_migration_keeps_stash_and_version() {
    let names: Vec<String> = ["events", "_total_migration_events", "db_version", "social_posts", "db_versions"]
        .iter()
        .map(|s| s.to_string())
        .collect();
    assert_eq!(tables_to_delete(&names), vec!["events", "social_posts", "db_versions"]);
    assert!(has_pending_migration_stash(&names));
    assert!(!has_pending_migration_stash(&vec!["events".to_string()]));
}

#[test]
fn total_migration_keeps_extension_tables() {
    let names: Vec<String> =
        ["articles_unpublished", "db_version", "ids_full", "bot_state", "social_post_materializations", "social_posts"]
            .iter()
            .map(|s| s.to_string())
            .collect();
    assert_eq!(tables_to_delete(&names), vec!["ids_full", "social_posts"]);
}

#[test]
fn reprocessing_takes_content_from_store_then_legacy() {
    assert!(content_source(StoredContent::Present, LegacyContent::Present, false) == ContentSource::Store);
    assert!(content_source(StoredContent::Invalid, LegacyContent::Present, true) == ContentSource::Skip);
    assert!(content_source(StoredContent::Absent, LegacyContent::Present, true) == ContentSource::Legacy);
    assert!(content_source(StoredContent::Absent, LegacyContent::Present, false) == ContentSource::LegacyMismatch);
    assert!(content_source(StoredContent::Absent, LegacyContent::Invalid, true) == ContentSource::Skip);
    let stash = vec![
        StashedEvent { stored: StoredContent::Absent, legacy: LegacyContent::Present, legacy_matches: false },
        StashedEvent { stored: StoredContent::Present, legacy: LegacyContent::Absent, legacy_matches: false },
    ];
    let (sources, processed, legacy) = plan_reprocess(&stash);
    assert!(sources == vec![ContentSource::LegacyMismatch, ContentSource::Store]);
    assert_eq!((processed, legacy), (2, 1));
}

// ── extensions, ranges, records ─────────────────────────────────

#[test]
fn reserved_extension_names() {
    assert!(is_reserved_extension_table("events"));
    assert!(is_reserved_extension_table("events_heads"));
    assert!(is_reserved_extension_table("social_posts"));
    assert!(is_reserved_extension_table("_total_migration_x"));
    assert!(!is_reserved_extension_table("event"));
    assert!(!is_reserved_extension_table("example.org/cache_entries"));
    assert!(ensure_extension_table("example.org/cache_entries").is_ok());
    assert!(ensure_extension_table("ids_self").is_err());
    let def: ExtensionTableDefinition<'_, u64, String> = ExtensionTableDefinition::new("example.org/cache_entries");
    assert_eq!(def.name(), "example.org/cache_entries");
}

#[test]
fn successor_ends_prefix_range() {
    assert_eq!(lexicographic_successor(&[1, 2, 3]), Some(vec![1, 2, 4]));
    assert_eq!(lexicographic_successor(&[1, 255, 255]), Some(vec![2]));
    assert_eq!(lexicographic_successor(&[255, 255]), None);
    assert_eq!(lexicographic_successor(&[]), None);
}

#[test]
fn records_and_errors() {
    assert_eq!(CurrentStateClosed.message(), "current-state publisher is closed");
    assert!(check_dump_table("events").is_ok());
    match check_dump_table("nope") {
        Err(TableDumpError::UnknownTable { name }) => assert_eq!(name, "nope"),
        _ => panic!("expected unknown"),
    }
    assert!(DeletingPostBody::Edit.is_edit());
    assert!(!DeletingPostBody::Whitespace.is_edit());
    let w = WotData { followees: vec![1, 2], extended: vec![3] };
    assert!(w.contains(9, 9) && w.contains(2, 9) && w.contains(3, 9) && !w.contains(4, 9));
    assert_eq!(w.len(), 3);
    assert!(!w.is_empty());
}

#[test]
fn database_identity_is_checked_on_open() {
    assert_eq!(verify_self_id(None, 7), Ok(Some(7)));
    assert_eq!(verify_self_id(Some(7), 7), Ok(None));
    assert_eq!(verify_self_id(Some(7), 8), Err(DbIdError::DbIdMismatch));
}
