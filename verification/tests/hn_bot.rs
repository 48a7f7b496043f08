use rostra::bot::tables::HnArticle;
use rostra::hn_bot::{hn_articles_to_publish, hn_enqueue_scraped, hn_record_publish_results, HnBotDatabase};

fn story(hn_id: u32, score: u32, title: &str) -> HnArticle {
    HnArticle {
        hn_id,
        title: title.to_string(),
        url: None,
        hn_url: format!("https://news.ycombinator.com/item?id={hn_id}"),
        score,
        author: "a".to_string(),
        scraped_at: 0,
    }
}

fn hn_ids(v: &[HnArticle]) -> Vec<u32> {
    v.iter().map(|a| a.hn_id).collect()
}

#[test]
fn hn_queue_is_ordered_by_id() {
    let mut db = HnBotDatabase::new();
    assert!(db.add_unpublished_article(&story(30, 1, "c")));
    assert!(db.add_unpublished_article(&story(10, 1, "a")));
    assert!(db.add_unpublished_article(&story(20, 1, "b")));
    assert_eq!(hn_ids(&db.get_unpublished_articles()), vec![10, 20, 30]);
    assert_eq!(db.get_unpublished_count(), 3);
}

#[test]
fn hn_queued_story_is_updated_and_published_story_refused() {
    let mut db = HnBotDatabase::new();
    assert!(db.add_unpublished_article(&story(1, 5, "old title")));
    assert!(db.add_unpublished_article(&story(1, 9, "new title")));
    let q = db.get_unpublished_articles();
    assert_eq!(q.len(), 1);
    assert_eq!(q[0].title, "new title");
    assert_eq!(q[0].score, 9);
    db.mark_article_published(1, 100);
    assert_eq!(db.get_unpublished_count(), 0);
    assert!(!db.add_unpublished_article(&story(1, 50, "again")));
    assert_eq!(db.get_unpublished_count(), 0);
}

#[test]
fn hn_cycle_filters_by_score_and_publishes_first_ones() {
    let mut db = HnBotDatabase::new();
    let scraped = vec![story(3, 100, "c"), story(1, 5, "a"), story(2, 60, "b")];
    assert_eq!(hn_enqueue_scraped(&mut db, &scraped, 50), 2);
    let to_publish = hn_articles_to_publish(&db.get_unpublished_articles(), 1);
    assert_eq!(hn_ids(&to_publish), vec![2]);
    hn_record_publish_results(&mut db, &vec![(2, true)], 10);
    assert_eq!(hn_ids(&db.get_unpublished_articles()), vec![3]);
    hn_record_publish_results(&mut db, &vec![(3, false)], 10);
    assert_eq!(hn_ids(&db.get_unpublished_articles()), vec![3]);
    assert_eq!(hn_enqueue_scraped(&mut db, &scraped, 50), 1);
}
