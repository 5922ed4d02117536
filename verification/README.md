# martian_dedup

The decisions of a Telegram bot that, added to a group, tells the sender of a
message when its links, its forward or its picture were posted in the chat
before. The library under `src/` is verified with Verus; `app/` is the bot
itself (Telegram, PostgreSQL, the async runtime), which hands the library
plain values and acts on what it returns.

- `link`: links as the bot keeps them; tracking parameters are stripped
  from the query (`clean_url`), and a message's links become a sorted set of
  lookup keys (`link_keys`).
- `order`: the order of texts used for those keys, and a sorted set of texts.
- `message`: the links among a message's entities, and the photo size to fetch.
- `picture`: decoding, perceptual hashing, and the integer a hash is stored as.
- `dedup`: what the database answers, which earlier message is reported, and
  the reply.
- `ignore`, `mute`, `command`: the other commands and their replies.
- `whitelist`: messages and links exempt from detection.
- `text`: decimal rendering and prefix tests.

The bot reads its SQL statements from `sql/<name>.sql` and its migrations
from `migrations/` in its working directory when it runs, so that the
queries can change without a rebuild; neither directory is part of this
crate.

`Cargo.toml` pins `takecell` at 0.1.1 though nothing here names it: teloxide
depends on it, and its later releases need a newer compiler than the one
that builds this crate.
