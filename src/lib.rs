//! A single-producer/single-consumer byte channel laid out in one fixed-size
//! segment: a header with the two cursors and a notification word, then a
//! circular payload. `ring` holds the writer's and the reader's steps over the
//! payload, `cursor` the arithmetic on the cursors, and `buffer` a ring kept in
//! one process whose contents are tracked as a queue of bytes.

pub mod buffer;
pub mod cursor;
pub mod layout;
pub mod ring;
