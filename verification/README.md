# zed

ZeroEffortDocs: document templates with `{{placeholders}}`, filled documents,
and `.docx` files read, filled, previewed and written.

The library in `src/` is verified with Verus. It holds the rules of the
application: which fields and values are accepted, how placeholders are found
in a file and written back into it, how a template body becomes HTML or a Word
document, which stored paths may be opened, and what the database must gain
when it is upgraded. Its contracts state these rules; the `law_*` proof
functions state what holds across them (an escaped text reads back, a rewritten
paragraph reads back and keeps its runs, the print page is the preview page in
print colours and sheets, accepted fields have valid and distinct keys, accepted
values fit their fields, upgrades settle, any download name makes a valid
header, and so on).

Modules:

- `text`, `text_facts`, `escaping`: text operations and their facts.
- `model`, `error`: records, field types and fill modes, names and keys.
- `marks`, `extract`: placeholders found in text and in `.docx` files.
- `paragraphs`, `paragraph_facts`, `docx`, `archive`, `xmlread`: Word XML,
  `.docx` packages (through the `zip` crate) and XML events (through
  `quick-xml`).
- `layout`, `preview`, `export`: template layouts as HTML, `.docx` as HTML,
  layouts as `.docx`.
- `templates`, `documents`, `files`, `modules`, `db`, `api`, `web`, `printjob`,
  `json`: the rules behind each part of the HTTP interface.

`app/` is the server around it: command line, SQLite through `sqlx`, the HTTP
routes through `axum`, files on disk, LibreOffice and Word. The web page's files
are read from `web/` in the working directory.
