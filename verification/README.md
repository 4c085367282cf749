# splitwise_ynab

Copies expenses from Splitwise into a YNAB budget.

- `src/` is the library, verified with Verus: amounts in cents and their text form
  (`models::cents`, `decimal`), the Splitwise and YNAB data (`models`), the booking rules
  that turn expenses into transactions (`models::transformer`), the decisions of a sync
  (`usecases::processor`), and the parts of the adapters that are not I/O
  (`adapters`, `ports`).
- `app/` is the program around it: JSON and DynamoDB forms of the data, the HTTP, AWS and
  SQLite clients, and the loop that carries out each step of a sync. Run it with no
  argument to sync once, or with `lambda` to serve as an AWS Lambda function.
- `tests/` exercises the library on concrete expenses.
