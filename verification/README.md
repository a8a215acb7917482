# libremarkable_utils

Tools for the reMarkable tablet, which keeps its documents as flat metadata files and is reached over
SSH. The library works out what has to be done; the program `rmu` under `app/` does it.

Everything under `src/` is verified with Verus: each function states what it returns, and the
properties that span functions are proof functions of their own.

| Modules | What they are about |
|---|---|
| `text`, `number`, `units`, `pathmap` | characters, numbers, sizes and ordered maps |
| `xochitl`, `tree`, `walk`, `family`, `path_laws`, `resolve`, `glob`, `render` | the logical tree: paths, references, patterns, listings |
| `json`, `metadata`, `listing`, `sections`, `status` | what the tablet tells about its items and itself |
| `archive`, `bundle`, `epub` | `.rmdoc` bundles and text imports |
| `ssh`, `device`, `progress`, `ident`, `action`, `client` | remote commands and the steps of an operation |
| `transfer`, `mkdir`, `deletion`, `reorganize`, `restore`, `restart` | the operations on a tablet |
| `sync`, `snapshot`, `plan`, `plan_laws`, `execute`, `converge`, `pairing` | folder sync: planning, applying, and where it comes to rest |
| `cli`, `reply`, `error` | the command line and what is said back |

Calls into other crates stand behind small functions marked `external_body`, in `archive`, `epub`,
`ident`, `json` and `tree`. What is believed of them is written above each.

`tests/` runs the library on values, `app/` holds input and output, processes and the clock.
