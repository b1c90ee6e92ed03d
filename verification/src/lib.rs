//! Verified core of `agentdrop`: the decisions behind bridging local file drops into a
//! remote Agent CLI. Everything here is plain computation; terminals, sockets and child
//! processes belong to the program around it.
pub mod argv;
pub mod bridge;
pub mod clipboard;
pub mod connect;
pub mod console;
pub mod identifier;
pub mod laws;
pub mod paste;
pub mod paste_laws;
pub mod path;
pub mod protocol;
pub mod proxy;
pub mod shell;
pub mod text;
pub mod uploader;
