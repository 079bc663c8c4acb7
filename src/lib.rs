//! Core of a key-pad controller: decoding of the sound server's command
//! output, the type-keyed registry shared between key handlers, the
//! polling decisions of the dispatch loop and the reconnect policy of
//! background sessions.
pub mod bytes;
pub mod color;
pub mod dispatch;
pub mod pactl;
pub mod session;
pub mod typemap;
