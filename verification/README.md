# zlnk

A URL shortener. `src/` is the verified library:

- `env_loader`: the settings with their defaults and start-up checks.
- `shortener`: alphabets, short codes, and the shortening protocol against a
  key-value store, with proofs over a map model of the store (resolving a
  fresh code gives its URL back, shortening twice answers the same code).
- `stats`: what a request reveals (referrer host, browser, OS, country), the
  counter writes of one click, and how counters are read back, with proofs
  that a click raises each of its counters by one, that the first click
  reads back as ones, and that after any number of clicks the total reads
  that number and each kind's counts add up to it.
- `geo_locate_ip`: the country decided from a database lookup.
- `bindings`: the trusted calls into `regex`, `rand`, `url`, `woothee` and std.

`app/` is the Rocket service that reads the environment, talks to Redis and
the country database, and runs the library's decisions.
