# Brix

Brix packages a web app into one Windows executable: a native host, followed by
the app as a zip archive and a footer with its size and its SHA-256 digest. The
host opens the archive, shows the app in WebView2 and gives its pages a bridge to
the system, `window.brix`.

This project is the host, written in Rust and verified with Verus.

## Layout

- `src/` is the verified library: everything the host decides and computes, with
  contracts that say what comes out.
- `app/` is the executable around it: files, processes, WinHTTP, windows. It does
  what the library decides and reports back what came of it.
- `tests/` runs the library on concrete values, with the outside crates linked.

## The library

| Module | What it decides |
|---|---|
| `bundle`, `archive` | Where the bundle lies in the executable, whether it is intact, its files and where they are extracted |
| `assets`, `mime`, `html`, `bridge` | Which file answers a request of a page, its type, and the bridge inside pages |
| `ipc`, `reply`, `dialog`, `files` | What a call of a page asks of the host, and what it is told |
| `sandbox`, `winpath` | Which paths a page may use: those in the data and temporary directories of the app |
| `extension` | Calls that go to the sidecar process, and the way back of their replies |
| `host` | What each event does to the windows |
| `backend`, `config`, `cli`, `folder` | The backend process and its port, the settings, the arguments, the directories |
| `update`, `version`, `http`, `installer` | Which versions are newer, how they are downloaded, and how they take their place |
| `tray`, `icon`, `splash` | The menu of the tray, icons, the splash window |
| `json`, `codec`, `urls`, `text`, `utf16`, `hash` | What the modules above are made of |

Functions named `law_...` are statements about the library as a whole that Verus
proves: that a path that is let through really lies in one of the two directories,
given what the file system says of the places above it; that a reply reaches the
window that asked and no other; that a stitched bundle is found again. What the
file system says comes from `app/`, and is taken as it comes.

## What is trusted

Outside crates do the work that is theirs: `serde_json` reads and writes JSON,
`zip` opens archives, `sha2`, `base64`, `url`, `percent-encoding`, `ico` and
`image` do what they are named for. Each call of the library stands in a small
function with `#[verifier::external_body]`, whose doc comment says what is claimed
of it. A result that takes pages to state has a name in its place.
