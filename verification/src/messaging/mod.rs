pub mod compose;
pub mod message;
pub mod receive;
pub mod send;
pub mod send_loop;
