//! An embeddable event store: a totally ordered log of frames, the decisions
//! of its single-writer command loop, and the bookkeeping of a bounded worker
//! pool. Persistence, channels, timers and threads live with the caller; the
//! logic that decides what each of them must do is verified here.

pub mod text;
pub mod frame;
pub mod ident;
pub mod options;
pub mod replay;
pub mod actor;
pub mod pool;
pub mod laws;
pub mod gateway;
