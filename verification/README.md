# thicket

What do the functions of a Clarity smart contract cost? `thicket` takes the
address of a contract in the explorer, or its source code, and answers with a
cost report in JSON.

- `src/` is the library, verified with Verus. It decides what to request and
  what to make of each reply, finds and cleans the source code, and makes the
  report and the answer. It does no input or output of its own.
- `app/` is the server around it: HTTP, the cache in SQLite, and the analysis of
  the source code.
- `tests/` runs the library.

| module     | what it holds                                                   |
|------------|-----------------------------------------------------------------|
| `job`      | the steps from a request to the answer                          |
| `explorer` | the search for the source code of a contract                    |
| `source`   | finding source code in JSON documents, scripts and pages        |
| `clean`    | cleaning source code                                            |
| `cost`     | cost reports                                                    |
| `cache`    | the row of the cache that holds a report                        |
| `failure`  | why there is no report                                          |
| `json`     | JSON documents                                                  |
| `text`     | searching, comparing and trimming text                          |

A function's contract speaks of the models of its arguments: the characters of a
text, the tree of a document. What an outside crate does is stated where it is
called, and its doc comment says what is relied on. Proof functions whose names
begin with `law_` state what holds of several functions together.
