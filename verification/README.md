# decorrelate

Turns the correlated subqueries of a SQL query plan into joins, and proves with Verus what it does.

A subquery is correlated if it refers to columns of the query around it. To evaluate it once and
not once per row, its plan is flattened: it is made to refer to columns of its own, its derived
columns, in place of the correlated ones. Then it is joined with the plan around it, on the
equality of each correlated column with its derived column.

| subquery                | becomes                                                |
|-------------------------|--------------------------------------------------------|
| one value               | a single join                                          |
| `ANY`                   | a mark join                                            |
| `EXISTS`, `NOT EXISTS`  | a mark join, or a semi join or anti join if it is a conjunct of a filter and its plan computes columns over a filter over a table, with all correlated columns in the filter |

- `src/types.rs`, `scalar.rs`, `plan.rs`, `s_expr.rs`, `metadata.rs`, `column_set.rs`,
  `column_map.rs`: plans, the scalars in them and the columns of a query, each with its view.
- `src/property.rs`, `join_predicate.rs`, `names.rs`, `error.rs`: the columns that a plan gives
  and takes, the side of a join that a predicate is about, names and errors.
- `src/model.rs`: what flattening and decorrelating compute, as spec functions.
- `src/rewriter.rs`, `flatten.rs`, `decorrelate.rs`: the executable rewriting, proved to compute
  what the model says.
- `src/laws.rs`, `flatten_laws.rs`, `definedness.rs`, `decorrelate_laws.rs`: what holds of the
  rewriting as a whole.
- `app/`: the interface of the metadata service that keeps data masks.
