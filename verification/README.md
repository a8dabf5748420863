# Raydium AMM trading bot

A bot that watches the swaps of one Raydium AMM V4 pool, buys when the price
drops, and sells again by take profit or stop loss, or gives the position up
after a time. Everything that decides is a library whose behaviour is stated in
contracts and proved with Verus; the program around it reads, sends and stores.

## Variables

| Variable | Meaning | Default |
|----------|---------|---------|
| `BUY_SOL_AMOUNT` | SOL to buy for | required |
| `ENTRY_PERCENT` | price drop between two ticks that triggers a purchase, in percent | `100` |
| `TAKE_PROFIT` | rise above the purchase price that triggers a sale, in percent | `100` |
| `STOP_LOSS` | fall below the purchase price that triggers a sale, in percent | `100` |
| `AUTO_EXIT` | seconds after which a position is given up | `60` |
| `SLIPPAGE` | tolerated slippage, in percent | `100` |
| `ENTRY_SLIPPAGE`, `EXIT_SLIPPAGE` | slippage of purchases and of sales, before `SLIPPAGE` | |
| `CONFIRM_SERVICE` | `NOZOMI`, `ZSLOT` (or `ZERO_SLOT`) or `JITO` | `NOZOMI` |
| `CU`, `PRIORITY_FEE_MICRO_LAMPORT`, `THIRD_PARTY_FEE` | fees of a submission | `0` |

The program also reads `GEYSER_URL`, `X_TOKEN` and `MONGODB_URI`.

## Layout

- `src/bignat.rs`, `src/rounding.rs`, `src/binary64.rs`, `src/order.rs`: IEEE 754
  binary64 numbers on their bits, each operation rounding its exact result to
  the nearest number, and how they keep the order.
- `src/decimal.rs`: numbers written as text.
- `src/settings.rs`: the variables above.
- `src/price.rs`: price, price change and least output of a swap.
- `src/address.rs`: addresses and token accounts; the only module that rests on
  contracts of other crates.
- `src/process.rs`: what a swap in the pool means for the bot.
- `src/session.rs`: ticks, submissions, confirmed trades.
- `src/laws.rs`, `src/quote_laws.rs`: what holds of the bot as a whole.
- `src/run.rs`: what holds throughout a run, after any events.
- `app/`: the program.
