# iamtxt

Daily sign-in helper for iamtxt.com accounts, written in Verus.

- `src/` is the verified library:
  - `config.rs`: account settings (`UserConf`), the attempt count, the rule
    that decides whether an account is to be signed in today (`need_att`),
    the default configuration, and time-of-day parsing.
  - `day.rs`: calendar days (`Date`), the text a day is written as, and the
    `time` crate calls that read days and times of day.
  - `status.rs`: the per-account sign-in record.
  - `maps.rs`: the `ahash` maps and sets that hold configurations and
    status files, with the contracts their operations are trusted to meet.
  - `text.rs`: string searching, trimming and line splitting, proved against
    their mathematical definitions.
  - `bot.rs`: what the library decides around each request — login form,
    handling of the sign-in reply, the retry loop as a step function, reading
    the points from the member page, choosing the accounts to sign in, and
    cleaning the status file — with the laws that tie them together.
  - `botdir.rs`: where the tool keeps its files.
- `tests/` exercises the library on concrete values.
- `app/` is the command-line program: argument parsing, files, HTTP
  requests and the asynchronous runs, calling the library for every decision.
