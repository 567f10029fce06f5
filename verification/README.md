# minimercado

The rules of a small shop's point-of-sale program, verified with Verus: login,
clients and users with their dialogs, the sale form with its cart, confirmed
sales with each client's tally of units bought, the daily report text and the
figures of the inventory chart.

- `src/text.rs`: decimal notation, reading an `i32`, trimming, splitting and
  padding text, each against a specification of what the standard library
  does.
- `src/model.rs`: the records (users, products, clients, cart lines, sales),
  selection by id, tallies of units per product name, sums in `i32`.
- `src/program.rs`: the program state and the events of the login, panel and
  user screens.
- `src/sale.rs`: the sale form: reading an entry, the cart, cancelling and
  confirming, and the laws of the cart.
- `src/report.rs`: totals, the daily report text and the chart figures.
- `src/steps.rs`: every event of the program as one relation, the
  invariant that all of them keep, and what they may change.
- `src/clock.rs`: the local time, read through `chrono`.
- `app/`: the egui window, the JSON files and the report file.
