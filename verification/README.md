# devendra

A lightweight configuration-management system: a server publishes machine
configurations from git repositories, agents apply them, and a bridge will
relay between MQTT and the server.

- `src/` is the verified library (Verus). It holds the decisions:
  - `common`: configurations, compositions, personas and protocol messages;
  - `name_map`: a map from names to values;
  - `text`, `interpolate`: string replacement and `${NAME}` placeholders;
  - `agent`: the order in which a configuration is applied (a plan and a
    step function), package and service commands, outcome judgements,
    reports;
  - `keys`: the agent's Ed25519 key pair in base64;
  - `server`: which updates an agent receives, registration tokens, and
    recording a repository sync.
- `app/` is the program around it: command line, files, processes, git,
  HTTP and the database.
- `tests/` runs the library on concrete values.
