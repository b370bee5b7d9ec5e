# koyuki

A Slack assistant for a small GitHub project. Members call it by name
(こゆきちゃん) or by mention and ask, in Japanese, for their remaining tasks,
pull requests waiting for them, issues with unresolved questions, or just say
おはよう. It greets each member when the working day begins and ends.

## Layout

- `src/` — the verified library (Verus):
  - `cabocha` — a dependency tree of a parsed sentence, and its reverse
    dependency map;
  - `args`, `callform`, `command` — from a tree to the arguments of each
    predicate, the form of each request, and the command it gives;
  - `detector`, `rewriter`, `pattern` — which messages call the assistant,
    the spellings normalized before parsing, and the regular expressions
    (through the `regex` crate) that both use;
  - `bot`, `exec`, `messages`, `remote` — how a message is understood, what
    each command asks of the remote services, and every answer's text;
  - `persistent`, `sched`, `slack` — what is stored of members, the pending
    notifications, and the Slack answers;
  - `trace` — the printed trace of a parsed request.
- `app/` — the program: Slack socket mode, the Slack Web API, GitHub and
  ZenHub over HTTP, MySQL and Redis, the CaboCha parser through its C
  interface, and the scheduler thread.
- `tests/` — tests of the library.
