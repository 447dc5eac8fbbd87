# tg_trainer

A Telegram bot through which trainees book training slots and trainers see
who comes when.

`src/` is the verified library. Its functions carry contracts that Verus
proves, with the exception of seven small trusted wrappers whose contracts
Verus takes on trust: `ymd_of_days`, `days_from_ymd`, `weekday_of_days` and
`parse_date_days` over chrono's `NaiveDate`, `parse_uuid_value` and
`new_random_id` over the uuid crate, and `push_char` over `String::push`.
Each of them only makes the call and converts its arguments and result; the
doc comment above each says what its contract claims of the outside code.
The modules:

- `calendar` — dates as day numbers and times of day, their order, and the
  texts `%d.%m`, `%H:%M` and `%Y-%m-%d` that the bot shows and reads back;
- `ids` — training identifiers and their hyphenated UUID form;
- `models` — users, trainings, registrations, the cancellation summary and
  the request sent to the language model;
- `schedule` — which trainings are still ahead, in which order, and the
  hourly slots that keep the schedule a month ahead;
- `sorting` — the stable sort by an integer key used for those orders;
- `keyboards` — the reply and inline keyboards, with the data each button
  sends;
- `dialogue`, `states` — what the bot answers at each step, which handler
  serves which step, and the step each event leads to;
- `config`, `cancel`, `commands`, `text` — settings, the cancellation
  request, the commands and text helpers.

`app/` is the program around it: Telegram through teloxide, SQLite through
sqlx, the language model through reqwest, the clock, the environment, and
the serde and sqlx forms of the library's records.
