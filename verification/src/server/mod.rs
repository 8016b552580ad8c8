pub mod bind;
pub mod command;
pub mod connection;
pub mod conns;
pub mod frame;
pub mod port;

pub use connection::{handle_command, handle_set_data};
pub use frame::{parse_frame, Frame};
