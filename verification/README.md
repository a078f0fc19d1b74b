# bevy-color-lsp

A language server that shows Bevy color literals (`Color::srgb(..)`,
`Color::WHITE`, `Srgba::hex("..")`, `palettes::css::TOMATO`, ...) as color
swatches through `textDocument/documentColor`, plus the logic of a Zed
extension that finds or downloads the server binary.

The library under `src/` is written in Verus. Its functions are verified
against their `requires`/`ensures` contracts, except the few trusted items
marked `#[verifier::external_body]` in `src/parser.rs` and `src/error.rs`:
the calls into tree-sitter and two `std` formatting calls. Their contracts
are assumed, and their doc comments say what they claim.

| Module | What it holds |
|--------|---------------|
| `detectors` | the four detectors over a tree-sitter parse, and their merge (ordered by range, one match per range) |
| `literal` | Rust numeric literal texts: separators, type suffixes, the decimal text `f32` parses |
| `color` | hex color strings (`#RGB`, `#RGBA`, `#RRGGBB`, `#RRGGBBAA`) as 8-bit channels |
| `position` | byte offsets to LSP positions (line, UTF-16 column), one at a time or in a single pass |
| `document` | documents with cached colors, and the store of open documents |
| `extension` | release asset names and the step-by-step search for the server binary |
| `parser` | the calls into `tree-sitter` |
| `error`, `num`, `text` | error messages, integer conversions, string helpers |

`app/` is the program around it: the `tower-lsp` server, the `f32`
conversions of detected colors through `palette`, the `thiserror` error
type, and the Zed extension that performs the installer's steps.
