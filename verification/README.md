# kraken_mm

A market-making bot for Kraken, with the services around it: a proxy that holds the exchange's
credentials, a tracker of profit and loss, an analyzer that moves pairs between states by their
trading edge, and a simulated exchange to try all of it out.

The logic is a library verified with Verus. What touches the network, the disk, the clock or
floating-point numbers is ordinary Rust around it.

## Layout

- `src/`: the library.
  - `decimal`, `decimal_laws`, `decimal_nearest`, `decimal_order`, `text`, `time`, `collections`,
    `json`: amounts, strings, points in time, ordered maps and JSON.
  - `types`, `config`, `state`, `events`, `pairs`, `position`: the data of the bot.
  - `book`, `quoter`, `risk`, `inventory`: books, quotes, limits and the kill switch.
  - `engine_model`, `engine`, `engine_laws`, `order_bounds`, `order_numbers`: the engine. The model
    says for each state and event which state and commands follow; the engine computes just that;
    the laws are what holds of every run.
  - `proxy`, `messages`, `auth`, `net`, `order_tracking`: commands and events of the proxy,
    signatures, addresses, rate limits and the book-keeping of orders and fills.
  - `market`, `history`, `pnl`, `edge`, `analyzer`, `trade_log`, `api`, `bot`, `state_store`: the
    decisions of the services.
  - `mock/`: the simulated exchange.
- `tests/`: tests of the library.
- `app/`: one program with a command for each service.

## Conventions

Amounts are decimals with a mantissa of at most 96 bits and a scale of at most 28. Where the result
of an operation does not fit, functions return `None` and leave what they were called on as it was.

Maps keep the order in which keys came in, so that equal inputs give equal outputs. The time is
always an argument.

Prices and quantities of the simulated exchange are floating-point numbers. The library sees them
as keys: integers in the same order, zero for zero.
