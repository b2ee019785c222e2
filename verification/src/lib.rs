pub mod addr;
pub mod bp;
pub mod cmd;
pub mod dbg;
pub mod error;
pub mod examine;
pub mod fmt;
pub mod mem;
pub mod numfmt;
pub mod session;
pub mod shell;
pub mod strutil;
pub mod trace;
