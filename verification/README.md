# package-json-upgrade

A language server for `package.json`, with its decisions verified in Verus, and
the Zed extension that installs it.

The server shows, behind each dependency, what it can be upgraded to; it remarks
on version strings that are no ranges, on packages that the npm registry does
not know, on known vulnerabilities and, in a hint, on outdated dependencies; it
completes version strings, describes packages, and offers to rewrite versions,
one at a time or all at once.

## Layout

| Part | What it holds |
|------|---------------|
| `src/text.rs`, `src/json.rs` | Text and JSON as plain values |
| `src/semver.rs` | Versions and ranges, around `nodejs_semver` |
| `src/document.rs` | The dependencies that a document declares; version strings; tiers of upgrades |
| `src/registry.rs`, `src/audit.rs` | What the npm registry and the OSV database say, and for how long it is remembered |
| `src/settings.rs` | The user's settings |
| `src/lsp.rs`, `src/views/` | What the editor is shown |
| `src/survey.rs`, `src/jobs.rs` | Going through a document, and what is looked for in it |
| `src/backend.rs` | The state of the server, and what it does with what the editor tells it |
| `src/install.rs` | How the extension installs the server |
| `app/` | The protocol, the net and the Zed API around the library |

## How it works

Sections that are nested deeper than the outermost object of the document are
passed over. A document may be in the middle of being typed: a string that is
not closed ends with its line, or where a section begins, and the braces that it
closes count.

Packages that match `ignorePatterns` are left alone, upgrades to versions that
match `ignoreVersions` are not offered, and with `showUpdates` off the server is
silent. The version that resolves all advisories is offered whatever
`ignoreVersions` says.

The library does no input or output. Where something has to be fetched, it says
what it needs next, and goes on when it is told what came of it: `Registry::fetch`
and `Auditor::audit` for one request, `Survey::advance` for the walk through a
document, `Installer::binary_path` for the installation. `app/` does what it is
asked and reports back.

Each function states what it returns over a model of its values: strings as
sequences of characters, records as structs of models. What outside crates
compute is either stated (the order and the text of versions, percent-encoding,
what a map holds) or given a name (`parsed_version`, `valid_range`,
`range_admits`, `parsed_url`, `pattern_verdict`). Functions whose names begin
with `law_` state what holds of the library as a whole.

Scores of vulnerabilities are floating-point numbers. The library names the
texts that are to be read as numbers, and is handed the bits of what they are.
