//! A compact bytecode layer for programmable addressable-LED strips, with the
//! authenticated distribution protocol around it: a small surface language and
//! its parser, a tree-to-bytecode compiler with constant folding, a stack
//! virtual machine that drives an abstract strip one frame at a time, and an
//! HMAC-SHA1 signed datagram codec with the server and client session logic.

pub mod ast;
pub mod client;
pub mod instructions;
pub mod parser;
pub mod program;
pub mod protocol;
pub mod server;
pub mod strip;
pub mod vm;
