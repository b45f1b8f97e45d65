# ayaka

The core of the Ayaka visual-novel engine as a Verus library: every function
under `src/` carries a contract that Verus proves.

- `chars`, `loc`, `lexer`, `rich_lexer`, `parser`, `text_error`: the TeX-like
  text of a line (`\cmd{..}`, `/character/alias/`, escapes), lexed into tokens
  that tile the input, then into rich tokens and parsed into texts and commands;
  error messages and their locations.
- `markup`: the other form of line markup, with a `/tag/alias/` header and
  nested command arguments.
- `raw_value`, `exec`: script values and the syntax tree of scripts.
- `str_map`: maps keyed by strings, with a map as their view.
- `fallback`: a value with a fallback (the same text in the base language).
- `action`, `context`: the lines of an action, the merge of an action with
  its base-language counterpart, blank-line trimming and the finishing of an
  action, the search step for the next text to run, and the marked-up report
  of a parse error.
- `report`: every parse error points at a span within its text; parsing with
  the report of the error in place of the text.
- `line`: the kinds of lines of a paragraph.
- `script_text`: a text as the runtime reads it, with the `\exec` and
  `\switch` commands; `context` turns it into an action one piece at a time
  (`command_request`, `exact_text_step`), with the game's outside work done
  between the steps.
- `settings`, `view_model`: which acts have been read, play records, and the
  statuses of opening a game.
- `plugin`, `fd_map`: plugin kinds and contexts, the registry that finds the
  plugin for a command, and the table of files opened for plugins.
- `locale`, `matcher`: locales parsed by `icu_locid`, and distances between
  language identifiers by CLDR-style matching rules.

`app/` holds what is not verified: serialization of these types, settings
files, the printing of parse-error reports, and the loops that run a game
around the library's steps (scripts, resources and plugins are its work).
