# agent_harness

A harness that tests an agent. A test says what the agent is expected to do: which calls it
makes to the language model and in what order, how it ends its task, and which files it
leaves. The agent runs in a container and talks to a small HTTP server; at the end there is
a verdict with every reason for failure.

- `src/` is the verified library.
  - `text`, `text_map`, `json`: texts, maps from text to text, JSON documents.
  - `http_server`: requests, responses, and the server that hands requests to endpoints.
  - `actions`, `environment`, `endpoints`: what is expected, how far the agent has come, and
    what each call does.
  - `failure`, `runner`: the reasons for failure, and the verdict.
  - `archive`: the headers and the members of a tar archive.
  - `container`: how the container is started, its output, its end and its files.
  - `request_laws`, `laws`: what holds of the library as a whole.
- `app/` is the program around it: the network, Docker, and the processes of a test.
- `tests/` runs the library.
