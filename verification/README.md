# project_bot

A Discord bot that keeps track of which server members take part in which
project, with project data kept in Notion.

- `src/` is the verified library (Verus): the shared cache and the commands
  that change it (`cache`), the string-keyed map it is built on (`str_map`),
  the decisions behind the bot's commands (`commands`), and the Notion request
  addresses and reply handling (`integration::notion`), which reads and writes
  JSON through serde_json behind stated wrappers.
- `app/` is the program around it: the Discord gateway and HTTP calls
  (serenity), the Notion HTTP calls (reqwest), the cache task and its channel
  (tokio), and the settings read from the environment (dotenv).
- `tests/` exercises the library on concrete values.
