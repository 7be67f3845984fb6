# onejudge

`onejudge` drives a simulated interaction and evaluation loop: it takes a skill or
agent, drives it through a conversation with a simulated user, and scores the
resulting transcript with natural-language verdicts.

Every decision of that loop is a function with a contract that Verus proves. What
talks to the world performs what the library asks for and hands back what came of it.

## Layout

| | |
|---|---|
| `src/engine.rs` | the conversation loop: turns, end conditions, sessions, streaming |
| `src/panel.rs`, `src/split.rs` | several judges, combined into one attributed answer; a runner and a panel composed |
| `src/cli/` | layered configuration, the plan it resolves to, the run and its summary |
| `src/oneharness/` | `oneharness` turns: what is asked for, reports, streams, attribution |
| `src/command.rs`, `src/schema.rs` | the JSON-lines protocol of custom backends |
| `src/api.rs` | judging through a messages API |
| `src/llmlint.rs` | judging by one `llmlint` run over the worker's tree |
| `src/prompts.rs` | the judge-side prompts, and reading their answers |
| `src/json.rs`, `src/members.rs`, `src/text.rs`, `src/number.rs` | documents and their written parts, texts and binary64 order |
| `src/doubles/` | what the deterministic stand-ins answer |
| `app/` | the program: arguments, files, processes, sockets, HTTP |
| `tests/` | scenarios over the library's public surface |

## Reading the contracts

Each data type has a view (`FooView`), and each function states its result over views
by a spec function of the same file. What a provider, a transport or a sink answers is
the embedder's: contracts tie each call to what it was given (`call_ensures`) and say
what is made of every answer. Laws that relate several functions are the public
`lemma_*` proof functions.

Numbers with a fraction are carried by their bits and the texts that show them; summing
and formatting costs is left to the program.
