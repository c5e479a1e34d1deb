# atra

The decisions of a coding agent, verified with Verus.

The agent keeps conversations ("threads") with models of several providers, runs their tool calls
on runners, and is driven from a command line. This crate holds what it decides and computes:

- `event`, `surface`: the history of a thread and what a model is shown of it.
- `api`: the wire formats of the model services. Requests are built from the surface, answers are
  decoded frame by frame, and `api::stream` ties both to the rules for sending a request again.
- `provider`: the catalogs and logins of the providers, and what the web tools may reach.
- `markup`: how deeply a page nests.
- `lifecycle`, `commands`, `connection`, `controller`, `request`: turns, commands and connections
  of the controller.
- `projection`: what is shown of a turn while it runs.
- `agent`: what an agent may ask of the threads below it, and the steps that carry it out.
- `runner`: the routing of a runner's answers, its processes and the files it is brought.
- `cli`: the plans of the command line, the sandbox and what the user is shown.
- `client`: the client's side of a subscription.
- `json`, `record`, `text`, `passage`, `order`, `codec`, `path`, `tokens`, `table`, `assoc`,
  `idset`: the values that the rest is stated over.

The contracts are stated over the views of the arguments. Most fix the result. Those that cannot
say what holds of every outcome: of random bytes it is said how many there are and not what they
are, and of a stream that ended in an error not what its decoder knows. A page that nests deeper
than its conversion can follow is refused. Proof functions named `law_…` state what holds across
functions.

What is taken from outside crates stands behind small functions marked
`#[verifier::external_body]`, each with a comment that says what is believed of the outside code.

`tests/` runs the library. `app/` is the program around it: arguments, sockets, files, child
processes and HTTP.
