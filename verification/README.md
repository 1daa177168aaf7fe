# agent_desktop_windows

The decisions of a Windows desktop adapter, written in Verus: the functions in `src/` are
verified against their contracts, and only what `outside` holds is taken on trust.

- `adapter`: the adapter, and the requests that need nothing else
- `listing`: windows and applications; `ident`: window identifiers; `image_path`: program names
- `node`, `walk`, `visit`, `limits`: accessibility trees, the walk that builds them, and its
  bounds; `roles`: their roles
- `mouse`, `action`: synthetic input and actions on elements; `geometry`: rectangles
- `clipboard`, `utf16`: the clipboard and its text
- `outside`: what is taken on trust from `std`

`app/` reads the desktop through Win32 and UI Automation and does what the library says.
Where reading and deciding take turns (`TreeWalk`, `ActionRun`, `ClipboardRun`), a run says what
to do next and takes the reply.
