# tgjpg_rs

A Telegram bot that answers image file names such as `cat.jpg` or
`mic drop.gif` with an image found by several search engines (Serper, Google,
SerpAPI, DuckDuckGo, Bing).

- `src/` is the library, verified with Verus: text algorithms (`text`),
  engine request parameters and result extraction (`google_image_searcher`,
  `image_search::{bing, ddg, serpapi, serper}`), merging of the engines'
  outcomes and the startup health check (`image_search`), inline-query and
  chat-message handling decisions (`inline_query_handler`, `message_handler`),
  local asset matching and ranking (`local_image_finder`), and the properties
  of the library as a whole (`laws`). The `White_Space` property is written
  out and verified in `unicode`; calls into `regex`, `url` and the standard
  library's larger Unicode tables go through small trusted wrappers in
  `pattern` and `unicode`.
- `app/` is the program: HTTP requests, JSON parsing, the file system, the
  Telegram dispatcher and logging. Run `app debug-search` to try DuckDuckGo
  once.
- `tests/` exercises the library on concrete values.
