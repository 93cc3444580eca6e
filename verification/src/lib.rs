//! Logic of a polled serial console: bounded line and argument buffers,
//! the command parser and dispatcher, the line editor of the shell, the lock
//! on the console, and the decisions of the UART driver, each with a
//! machine-checked contract.

pub mod bounded;
pub mod command;
pub mod console;
pub mod mutex;
pub mod shell;
pub mod text;
pub mod uart;
