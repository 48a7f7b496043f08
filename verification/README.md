# rostra

A verified core of the Rostra news bots and client database, written in
Verus.

- `src/bot/`: the news bot: scraped pages turned into articles, article
  deduplication by id, URL and title, the unpublished queue and published
  history, the decisions of one scrape-and-publish cycle, and post
  formatting.
- `src/hn_bot.rs`: the HackerNews-only bot's queue.
- `src/db/`: the decisions of the event database: event and content
  processing, social post counts, votes and news ranking, missing content
  scheduling, pagination, migrations, node announcements, reception order
  and the materialized post feed.
- `src/assets.rs`: pre-loaded static assets, ETags and content negotiation.
- `app/`: the bot program: command line, HTTP fetching, storage of the
  tables as JSON, publishing, and the static asset HTTP service.
