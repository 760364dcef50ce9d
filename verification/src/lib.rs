//! Stream primitives: a byte copy that a caller-supplied condition can halt,
//! and a reader that stitches a lazy sequence of byte chunks into a single
//! pull-based byte stream.

pub mod chunks;
pub mod copy;
pub mod error;
pub mod laws;
pub mod sinks;
pub mod sources;
pub mod stream;

pub use crate::chunks::ChunkSequence;
pub use crate::chunks::IterReader;
pub use crate::chunks::VecChunks;
pub use crate::copy::copy_until;
pub use crate::copy::AlwaysStop;
pub use crate::copy::NeverStop;
pub use crate::copy::SinkLenAbove;
pub use crate::copy::DEFAULT_BUF_SIZE;
pub use crate::error::IoError;
pub use crate::sinks::RejectingSink;
pub use crate::sources::BytesSource;
pub use crate::sources::ReadStep;
pub use crate::sources::RepeatSource;
pub use crate::sources::ScriptedSource;
pub use crate::stream::ByteSink;
pub use crate::stream::ByteSource;
pub use crate::stream::StopCondition;
