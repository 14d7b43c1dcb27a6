# ani_cli_rus

A command-line client for the AnimeGO catalogue: search titles, list a title's
episodes, find the address of an episode's video, download it, and manage the
downloaded files.

- `src/` is the verified library (Verus). It holds every decision the client
  makes: the search address and the reading of result pages (`search`), the
  episode lists of a title page, their order and the video address of an
  episode (`title`), file names, the search for a direct video address and the
  listing of the download directory (`download`), the reading of typed answers
  (`menu`), and the text handling they share (`text`). HTML and JSON are read
  through `scraper` and `serde_json`, and queries are percent-encoded through
  `urlencoding`, behind the trusted items of `page`. `laws` proves properties
  that span functions.
- `app/` is the program around it: the menus, `curl` runs, the file system and
  the video player.
- `tests/` exercises the library on concrete pages, names and answers.
