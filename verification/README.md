# Open Live Writer

A Markdown editor that publishes to Notion and Typecho. `src/` is the library: every rule of the
editor, written in Verus and proved against its contract. `app/` is the program around it: the window,
the files and the connections. `tests/` runs the library.

## The library

| Module | What it holds |
| --- | --- |
| `text`, `lines`, `number`, `bytes` | texts as characters and as bytes, lines, numbers, encodings |
| `editing`, `editing_laws` | edits of Markdown text, and which of them undo each other |
| `tree`, `markdown`, `preview` | syntax trees, blocks and pieces of text, and what the preview shows |
| `json`, `http`, `reply` | requests and replies as plain values |
| `publishing`, `notion`, `typecho`, `publishing_laws` | settings, titles, images, and the course of a publication |
| `document`, `names` | files on disk, their names, and offsets in UTF-8 and UTF-16 |
| `storage`, `storage_laws`, `atomic` | places, recent files, drafts, media, and writes that lose nothing |
| `input`, `ribbon`, `editor` | the text field, the commands, and the state of the editor |

The laws of the library are the functions whose names start with `law_`. They are proved over the same
specification functions that the contracts use.

## What is trusted

Calls into other crates stand behind small functions whose contracts say what is believed of them:

- `tree::to_mdast` and `publishing::to_html` call `markdown`,
- `bytes::gbk_decode` and `bytes::gbk_encode` call `encoding_rs`,
- `reply` reads JSON with `serde_json`,
- `bytes` and `storage::last_name` call the standard library, and `text` describes `String::push`.

Where the result is a function of the arguments that no short text describes, it has a name, such as
`tree::gfm_tree`, and the contracts speak of that name.
