# content

The content-process core of a web engine, written in Verus: the DOM and HTML
algorithms that decide what happens (tree mutation, attribute reflection,
event dispatch, abort signals, timers, message ports, dedicated workers,
iframes and navigation, fetch responses, media elements, canvas state), each
with a contract proved by Verus.

- `src/` is the verified library. Each module models its state with spec
  functions and views, and states its laws as public proof functions named
  `law_*`. URL parsing (`url`), `data:` URL decoding (`data-url`) and a few
  standard-library string operations are called through small trusted
  wrappers whose contracts name their results.
- `app/` is the embedding side: the worker event loop over crossbeam
  channels, the event-dispatch, timer-task, abort-step and port-task drivers that call
  into script, keyboard-event conversion, random identifiers,
  environment-switched logging and the floating-point timeout conversion.
- `tests/` exercises the library on concrete values.
