# cpkg

A small package manager for Windows apps that are published as GitHub
release assets, and the installer of the tool itself. The library under
`src/` holds the tool's logic with its specifications, proved by Verus:

- `text`: string operations (trimming, splitting, searching, ASCII case,
  decimal notation) specified over character sequences;
- `manifest`: validation of the registry's app manifests, the installer file
  named by a download URL, app ids and manifest paths;
- `state`: the list of installed apps, recording and removing installations
  (kept sorted by id), with the laws that relate them;
- `commands`: which work each command asks for and what it reports;
- `installer`: reading a page of GitHub releases, choosing the release to
  download, the elevated relaunch, the
  machine `PATH` update and the installer's messages;
- `json`: JSON values as the library reads them, parsed through
  `serde_json`;
- `sys`: the calls into std for path joining and the clock.

`app/` is the command-line program around it: argument parsing, files,
HTTP, processes and, on Windows, the installer's dialogs.
