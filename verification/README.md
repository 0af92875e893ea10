# catbot

A Discord bot that posts cat pictures, builds emoji pyramids, posts configured
items and takes its own latest message back on request, with an optional web
server for writing messages in the bot's name.

- `src/` is the verified library: the command patterns and answers
  (`handler`), the record of the bot's own messages (`history`), the web pages
  (`server`) and the string helpers they rest on (`text`).
- `app/` connects it to Discord (serenity), the cat picture sources (reqwest)
  and the web server (rocket), and reads the JSON configuration named by the
  `CONFIG` environment variable:

```json
{
    "token": "*discord bot token goes here*",
    "post": { "dogs": "https://example.com/dog.png" },
    "server": { "address": [127, 0, 0, 1], "port": 80 }
}
```

`server` and `post` are optional; the token may instead come from the
`CATBOT_TOKEN` environment variable.
