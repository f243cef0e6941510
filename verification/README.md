# free-games-notifier

Announces the games that are currently free to claim on the Epic Games Store,
once per configured Discord target.

- `src/` is the verified library:
  - `epic`: the promotions feed, as plain data;
  - `time`: UTC instants, RFC 3339 parsing (chrono) and clocks;
  - `offers`: which feed elements are free right now, their slugs and store links;
  - `text`: decimal numbers and the announcement text;
  - `store`: the records of earlier announcements;
  - `delivery`: which offer goes to which target in a run, and the laws that
    hold of runs (nothing is announced twice, a second run is silent, a new
    target gets every offer);
  - `config`: settings, the command line, the search for `settings.toml`;
  - `notifier`: the channel interface and a channel that keeps its messages.
- `app/` is the program: it reads the command line and the settings file,
  fetches the feed over HTTP, parses its JSON, keeps the records in SQLite,
  sends the messages to Discord, and lets the library make every decision.
