//! The state and the rules behind a full-screen annotation overlay: the
//! strokes drawn with the pointer, the pen width that the keyboard changes,
//! the hex colour entry and what each key does.

pub mod pen;
pub mod hex;
pub mod canvas;
pub mod keys;
