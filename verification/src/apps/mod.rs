pub mod keypad;
pub mod receiver;
pub mod scanner;
