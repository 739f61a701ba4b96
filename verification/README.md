# stateforward_hsm

Hierarchical state machines with a verified core.

`src/` is the library, verified with Verus:

- `path`, `text`, `assoc`: qualified names (`/Machine/state/child`), string
  helpers, and lists keyed by name.
- `kind`: packed kind values and the `is_kind` hierarchy test.
- `event`, `element`, `model`: events, model elements and the model with its
  runtime tables (transition, deferral and history tables, transition paths).
- `builder`, `dsl`, `macro_builders`: declaring a model element by element;
  what each element does to the model is stated in `partial_applied`, and a
  list of them in `elements_applied`, nested elements included. `define`
  ties the model it returns to its elements through them.
- `model_lifecycle`, `model_validation`, `rebase`: completing, validating and
  renaming models.
- `queue`: the event queue (completion events first, most recent first).
- `dispatch`, `route`, `machine`, `runtime`: what a running machine decides:
  which transitions an event may take and in what order, where it is
  deferred, which states a transition leaves and enters, history, timers,
  attributes and snapshots.

Behaviors, guards and timers are referred to by numeric handles; the runtime
in `app/` maps each handle to a function.

`app/` is the asynchronous runtime around the library (tokio): contexts and
cancellation, the callback table, event payloads, the machine runtime that
performs what the library decides, groups and the free-function API.

`tests/` exercises the library on concrete machines.
