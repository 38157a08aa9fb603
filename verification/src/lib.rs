//! The logic of a proxy between an editor and the MiniMax models.
//!
//! An editor asks for a completion with a fill-in-the-middle prompt ([`fim`]).
//! The proxy rewrites it into a chat message ([`prompt`]), asks the model
//! ([`upstream`]), cleans what comes back ([`clean`]) and replies
//! ([`completion`]). The server reads its settings from its environment
//! ([`config`]), which the editor's extension prepares ([`extension`]), and
//! speaks just enough of the language server protocol to be kept running
//! ([`lsp`]).
pub mod clean;
pub mod completion;
pub mod config;
pub mod extension;
pub mod fim;
pub mod json;
pub mod lsp;
pub mod number;
pub mod preview;
pub mod prompt;
pub mod text;
pub mod upstream;
