# Overseer

Overseer publishes Fallout 76 data (Minerva's sales, the Atomic Shop, the
event calendar, challenges, Daily Ops, launch codes and the season) as static
JSON files.

The library in `src/` holds the parsing, the feed rules and the snapshot
store's decisions, each with a contract proved by Verus:

- `text`, `numbers`, `pattern`, `clock`, `link`, `dom`: text handling, number
  reading, regular expressions (`regex`), dates and zones (`chrono`,
  `chrono-tz`), links (`url`) and HTML queries (`scraper`).
- `timeparse`: the date formats of the source pages.
- `bethesda`: the monthly Atomic Shop article.
- `nukaknights`: the Minerva schedule and inventory, the event calendar and
  the widgets of the home page.
- `store`: when a snapshot is unchanged, where it is archived.
- `order`: stable sorting and its laws.

`app/` is the command-line program: it fetches the pages, serialises the
feeds and writes the files as the library decides.
