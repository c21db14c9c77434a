# composer_rs

A package manager for PHP projects that reads and writes `composer.json` and
`composer.lock`. Its rules stand in a library that Verus verifies; a program
around it does the input and output.

## Layout

- `src/` — the library. Every function states what it returns, and Verus proves
  it. Proof functions named `law_…` state what holds across functions.
  - texts, paths and collections: `text`, `paths`, `collections`, `reach`
  - JSON and the files: `json`, `fields`, `php_json`, `manifest`, `lock`,
    `read_back`, `package`, `content_hash`, `hash`
  - versions: `version`, `constraint`, `ranges`, `platform`
  - repositories: `repositories`, `repo`, `sources`, `auth`, `cache`
  - resolution: `index`, `solver`, `solution`, `resolve`, `sorter`
  - installation: `installer_paths`, `download`, `archive`, `progress`
  - the autoloader: `autoload`, `classmap`, `php`, `installed`
  - the commands: `commands`
- `tests/` — tests of the library from outside.
- `app/` — the program `composer-rs`: arguments, files, processes, the network
  and the terminal.

## What is believed

Calls into other crates (`serde_json`, `regex`, `url`, `version_ranges`, `ahash`, `md5`,
`blake3`, `sha1`, `sha2`, `hex`) go through small functions marked
`external_body`, whose contracts are believed. The search for a solution is that
of `pubgrub`; the library builds the graph that it searches, answers its
questions and turns its answer into packages.
