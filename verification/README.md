# xemm_rust

Cross-exchange market making: the bot rests orders on a maker exchange (Pacifica or
Binance futures) and hedges their fills on Hyperliquid.

`src/` holds the trading rules as a library that is verified with Verus. It makes
decisions and keeps state, and does no I/O. The calls that it makes into other crates and
into the standard library, where that has no contracts of its own, stand in small wrappers
and declarations whose contracts are trusted, not proved: they are in `src/encoding.rs`,
`src/json.rs`, `src/clock.rs` and `src/text.rs`. Every other function is proved to meet its
contract. `app/` holds what talks to the world: HTTP and WebSocket clients, files, timers
and signals. It asks the library what to do and does it.

- `src/double/`: IEEE 754 arithmetic on bit patterns, each result proved to be the
  nearest number to the exact one.
- `src/text.rs`, `src/json.rs`, `src/encoding.rs`, `src/clock.rs`: text, JSON,
  encodings and digests, and time.
- `src/config.rs`: settings and their ranges.
- `src/strategy/`: normal trading and events, statistics of the spread, funding.
- `src/bot/`, `src/app.rs`: the state of the bot and the decisions of its main loop.
- `src/services/`: fill detection, the order monitor, and the recorder of the spread.
- `src/connector/`: what the exchanges take and give.
- `src/trade_fetcher.rs`, `src/audit_logger.rs`, `src/util/`: profits, records, and
  backing off.
