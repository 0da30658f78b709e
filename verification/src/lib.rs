pub mod codec;
pub mod logline;
pub mod orchestrator;
pub mod paths;
pub mod schedule;
pub mod since;
pub mod store;
pub mod summary;
pub mod tailer;
pub mod timefmt;
pub mod util;
