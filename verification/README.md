# bookmark-check

A command line tool that finds the links in Markdown files, checks them over
HTTP and reports those that are broken, redirected or malformed. The library
under `src/` is verified with Verus; `app/` holds what talks to the outside: the
command line, files, HTTP requests and JSON.

| Module    | Content                                                          |
|-----------|------------------------------------------------------------------|
| `text`    | characters, lines, words, decimal numbers                        |
| `urls`    | the verdict on a link target: link, malformed, or out of scope   |
| `scan`    | reading the links of one line                                    |
| `extract` | the links of a document with their places; distinct URLs         |
| `check`   | what HTTP replies mean, retries, redirects, the state of a run   |
| `order`   | the order of places                                              |
| `report`  | entries, summary, exit code, text output, the content of JSON    |
| `laws`    | what holds across modules, as proved statements                  |

Outside verified code the library relies on `url::Url::parse`, called in one
place in `urls`, and on `String::push`.

```
bookmark-check [OPTIONS] <FILE>...
```

The exit code is 0 where all links are healthy, 1 where one is broken or a
redirect was left unfollowed, and 2 for wrong usage or unreadable files.
