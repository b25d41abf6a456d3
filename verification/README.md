# mer

Mermaid diagrams as real graphics in the terminal, through the kitty graphics protocol.

`src/` is the library, verified with Verus: finding diagrams in Mermaid and Markdown input, also
while it still arrives; the terminal's replies, keys and mouse; the theme made from the terminal's
colors; settings; diagnostics; images as escape sequences; and the stream, watch and viewer modes as
state machines. Diagrams are laid out by [merman](https://github.com/Latias94/merman) and drawn by
[resvg](https://github.com/linebender/resvg). What the library takes on trust from other crates is
marked `external_body` or `assume_specification`, with a comment that names the outside function.

`app/` is the program around it: the command line, files, threads, the terminal, and what needs
floating point. It reads the four faces of the Inter font from the directory in `MER_FONTS`, or from
`share/mer/fonts` next to the directory it is installed in.

| Module | What it does |
|---|---|
| `input` | Diagrams in documents; detection of formats |
| `term` | Terminal input, probing, images and tmux |
| `theme`, `json` | Colors and Mermaid configuration |
| `cli`, `settings`, `display` | What a run does, and where |
| `engine`, `fonts`, `raster`, `size`, `render` | From source to frames |
| `run` | Several diagrams, printed, checked or exported |
| `live` | Streams, watched files and the viewer |
| `diag`, `text`, `utf8`, `path` | Error messages, and the text they are made of |

The laws that relate several functions are public proof functions in the modules they are about,
such as `live::pieces::streams_end_like_one_shot_input`.
