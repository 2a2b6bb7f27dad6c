# market_connectors

Connector logic for two venues, verified with Verus.

- `src/http/`: a request builder for a signed HTTP API, apart from any HTTP library.
- `src/ctp/`: the market-data side of the CTP futures API.
  - `api`: the native API as a state machine. It hands out commands and takes the
    outcome of each wait.
  - `topic`: what a server follows.
  - `stream`: the handler that turns ticks into candle updates.
  - `loader`: requests for candle history, built with `ureq`.
  - `server`: the market server that ties these together.
- `src/text.rs`: numerals and the strings that a C interface can take.
- `app/`: the native calls, the threads and the HTTP round trips.

Nothing in `src/` performs input or output. Prices and volumes have a numeric type
of the caller's choice, and the library never computes with them: a difference of
two totals is handed out as the pair.

The proof functions whose names begin with `law_` state what holds of the library
as a whole.
