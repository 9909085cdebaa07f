//! The decision logic of a PHP workbench and of the assistant that lives in it.
pub mod accept;
pub mod answering;
pub mod arguments;
pub mod bar;
pub mod calling;
pub mod chat;
pub mod commands;
pub mod completion;
pub mod context;
pub mod definitions;
pub mod diagnostics;
pub mod documents;
pub mod edit;
pub mod executor;
pub mod find;
pub mod findings;
pub mod formatter;
pub mod framing;
pub mod help;
pub mod http;
pub mod imports;
pub mod input;
pub mod inspect;
pub mod interaction;
pub mod json;
pub mod layout;
pub mod lsp;
pub mod naming;
pub mod native;
pub mod navigate;
pub mod offering;
pub mod ollama;
pub mod orchestration;
pub mod php;
pub mod pointer;
pub mod progress;
pub mod protocol;
pub mod provider;
pub mod reasoning;
pub mod receiver;
pub mod record;
pub mod reply;
pub mod request;
pub mod rounds;
pub mod run;
pub mod semantic;
pub mod session;
pub mod showing;
pub mod signature;
pub mod symbols;
pub mod syntax;
pub mod table;
pub mod text;
pub mod tools;
pub mod trace;
pub mod typing;
pub mod utf16;
pub mod view;
pub mod widths;
pub mod writing;
