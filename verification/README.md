# podbatch

Downloads every episode of the podcasts in an OPML subscription list, and turns
episodes already on disk into transcripts.

`src/` is the library: the feeds and lists it reads, the names files get, what a
run does next, the documents transcripts are written as, and what the window
knows and says. It is verified with Verus, down to a small boundary of outside
calls whose contracts are believed rather than proved: parsing XML with
`roxmltree` (`src/xml.rs`), parsing JSON with `serde_json`
(`src/transcribe.rs`), changing the frames of an ID3 tag with `id3`
(`src/tags.rs`), and putting characters at the end of a `String` (`src/text.rs`).
Each says in its doc comment what it claims.

`app/` is the window itself, and the network, the disk and the programs around
it. It is ordinary Rust, and nothing of it is verified.
