# simple_path

Simplifies Windows paths prefixed by `\\?\` (the Win32 File Namespaces), as
`fs::canonicalize` returns them, so that programs such as PowerShell and
`cmd.exe` can use them:

| | `C:\dir` | `Z:\x` (network) |
| --- | --- | --- |
| `fs::canonicalize` | `\\?\C:\dir` | `\\?\UNC\server\share\x` |
| `SimplePath` | `C:\dir` | `\\server\share\x` |
| `SimplePath` with `map_to_drive` | `C:\dir` | `Z:\x` |

A path is simplified only when it starts with `\\?\UNC\` or, through the
`dunce` crate, `\\?\X:` with an ASCII drive letter, and the result holds no
invalid characters and no reserved names (a path that `dunce` would strip
but that holds a reserved name such as `COM¹` stays as it is). By
default only paths on connected network shares are simplified
(`allow_unknown_unc` lifts that), and `disallow_long` keeps results within
`MAX_PATH`.

## Layout

- `src/` is the library, verified with Verus. It reads paths the way Windows
  does on every platform: prefixes and components (`components`), whole-path
  checks and prefix stripping (`path_ext`), file-name checks (`os_str_ext`),
  `\\?\` and UNC forms (`long_unc`, `unc_path`), network drives and shares
  (`drive_path`, `volume`, `net_resource`, `logical_drive`), and the
  simplification itself (`simple_path`, `display`). `outside` holds the
  contracts of the calls into `dunce` and `std` that the library relies on.
- `app/` is the part that needs the machine: `fs::canonicalize`, the Windows
  API calls that list mapped drives and connected shares, a process-wide
  cache of them, and `Path`-based entry points.
- `tests/` exercises the library on concrete paths.
