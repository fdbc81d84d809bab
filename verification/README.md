# search_mesh

Codebase intelligence for coding agents, served as tools over newline-delimited
JSON-RPC on stdio: `scan` (many keywords over many files in one pass),
`ast_probe` (is a pattern inside a syntax node of a given type?), `squeeze`
(the syntax-bounded block around a pattern), `patch` (a line/column text
replacement, with a syntax report) and `rename` (whole-word renaming, in a file
or inside one syntax node).

The library under `src/` is written in Verus and verified:

- `text`: UTF-8 byte facts, newline counting, splicing and cutting strings.
- `patch`: 1-based line/column coordinates, their byte offsets, and patches.
- `syntax`: a syntax tree as plain values and the descent that finds the node
  spanning a byte range.
- `parsed`: the handle on tree-sitter. Grammars, parsers, trees and nodes are
  carried with the language, text and child-index path they stand for, and
  what tree-sitter computes for a node (kind, range, rows, children, errors)
  is named as a function of those; the library trusts those names and the
  calls that yield them, and proves everything built on them.
- `grammar`: parsing and the breadth-first copy of tree-sitter's tree into a
  `SyntaxTree`, stated node by node over those names.
- `probe`: file extensions and languages, node-type aliases, probes and squeezes.
- `rename`: whole-word renaming.
- `scan`: keyword scanning with an Aho-Corasick automaton, line by line.
- `server`: which method and tool a request names, the handshake version,
  error codes and result payloads.

`app/` is the server program: it reads and writes files, walks directories
(honouring ignore files), parses and prints JSON, and hands plain values to
the library.
