//! A native boundary between a dynamically typed host and typed records:
//! a closed value model, record codecs over it, a text codec, an
//! interpreter for batches of tagged operations, and the bookkeeping that
//! hands results of background work back to the host exactly once.
pub mod value;
pub mod codec;
pub mod error;
pub mod ops;
pub mod json;
pub mod text;
pub mod hello;
pub mod task;
