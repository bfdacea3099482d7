# glimmerwood_core

The rules of Glimmerwood, a calm web browser with a wisp that keeps an eye on
how browsing leaves you, written in Verus and proved against their contracts.

## Layout

- `src/` is the library. Every function in it is verified:
  - `nav`, `pages`, `failure`, `find`, `embed`: what a typed address opens,
    which bundled pages a tab may load, the page for a failed load, the find
    bar's words, and the embedded file table.
  - `tabs`, `session`, `downloads`: the tab column, what comes back after a
    restart, and what is arriving.
  - `reputation`, `ratings`, `settings`, `asking`, `newsboat`: the lists
    that say how a site leaves the user, the Settings page, the wisp's
    questions about new sites, and good news for Newsboat.
  - `dose`, `attention`, `history`, `store`, `diary`, `home`, `places`,
    `companion`, `feel_lab`: the clock the dose runs on (days, the night),
    presence, what history keeps, the diary of the last weeks, Home, the good
    places it offers, and the companion: the wisp's message, what Home and
    Settings show, and its small decisions.
  - `text`: strings as sequences of characters, with the searching,
    splitting and trimming the rest is written with.
- `tests/` runs the library on concrete values.
- `app/` is the shell around it that Verus does not see: reading and writing
  files, the SQLite history, and the floating point arithmetic of the dose,
  the sun, the zoom levels and the sizes on Home.

The laws the library keeps are public proof functions next to the code they
speak of:

- adding good news keeps the list as it was and only writes after it, and
  the feeds it counts as there already are those the list had;
- adding good news twice changes nothing, for feeds whose address is one
  word that starts with neither `#` nor a quote;
- taking it out after adding leaves the user's own lines, for such feeds
  with no quote in the address or the name and a name on one line;
- restoring a session twice changes nothing;
- the longest matching list entry wins;
- at most three questions a day, each about a different site, and each one
  opened is counted; over any run of refreshes in a day the questions it
  opens stay within that, each only once it is due, and a new day starts
  afresh;
- a download id is never handed out twice;
- a private site is never named on the wisp's caption;
- a percent-escaped text unescapes to itself;
- each name reads back as what it names, and the night and day boundaries
  come when the clock says.
