# metoks

A local dashboard of the tokens and credits that AI services use. It gathers them from
the logs of `claude_code` and Codex and from OpenRouter's running total, keeps them in one
time series, and forecasts where the week is heading, so that you stay within your limits.
Nothing that is gathered leaves the machine.

The rules of the project are a library, verified with Verus. The program around it reads
files, talks to SQLite and to the network, and draws.

## Layout

| | |
|---|---|
| `src/normalize.rs`, `src/collectors/` | log lines and polls become events; reading a file in steps |
| `src/pricing.rs` | prices of models, and where the dataset comes from |
| `src/config.rs`, `src/paths.rs` | settings, keys that must be there, where files are |
| `src/forecast/` | windows, caps, readings, rates by hour of the week, cumulative curves |
| `src/projects.rs`, `src/api.rs`, `src/tui.rs` | what the API and the terminal show |
| `src/db.rs` | what is stored, and how it is read back |
| `src/time.rs`, `src/json.rs`, `src/digest.rs` | instants and zones, documents, digests: the outside crates behind the contracts |
| `src/text.rs`, `src/number.rs` | texts as sequences of characters, doubles as bit patterns |
| `tests/` | what the library does on given values |
| `app/` | the program: arguments, files, SQLite, HTTP, the terminal, arithmetic on doubles |

## Numbers

Tokens are integers, and sums of them are exact. Amounts of money, percentages and rates
are doubles; the library carries them as bit patterns (`number::Real`), orders them and
decides by them. It leaves their sums and quotients to the program, which hands the results
in as figures: each contract says which figure counts, and when.

## Properties

Besides the contract of each function, the proof functions named `law_…` state what holds
across functions: a file read in steps gives what it gives at once, copies of a message are
one event, usage takes the model of the nearest turn, a window ends with the first reset to
come, a cap survives a reset, the points of a series add up to its total, adjoining spans of a
projection add up to the whole, an extreme hour has no more influence however it grows, and
others.
