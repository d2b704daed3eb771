# hatch

Turns a product idea into a running fullstack app on localhost: a planner model
splits the intent into tasks, one agent per task generates files, a supervisor
collects their outputs and writes them under the run's folder, and an optional
local loop builds the project, asks a fixer model for patches from the build log,
and starts the dev servers.

The decisions of every stage are a verified library (`src/`), checked with Verus:

- `planner`: the task list a model returns becomes a plan with distinct ids and resolved
  dependencies; dependencies that form a cycle are refused, so the plan is a DAG.
- `spawner`, `agent`: which template and model each task's agent uses, when it
  starts (once the tasks it depends on have finished), the agent's prompts, and
  what its reply becomes.
- `bus`, `supervisor`: the message bus, the wait for every task's output, and the
  run's result.
- `materialize`: the run's folder, which generated files are written there (with
  optional approval of each top-level folder), and the run summary.
- `pipeline`, `paths`: settings, the builds and dev servers for the project's
  layout, the build-fix rounds, the files shown to the fixer and where its
  patches may go.
- `chat`: what each line typed in the interactive planner does.
- `llm`, `stream`: request messages, provider settings, and the framing of
  streamed replies.
- `console`, `config`: the live report's text and the command line's defaults.
- `text`, `fence`, `ids`: character-level helpers, code-fence stripping, UUID text.

`app/` is the program around it: the command line, HTTP calls to the models,
processes, files and the terminal. `tests/` exercises the library.
