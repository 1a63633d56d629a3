//! What the operations promise, stated of what goes into a call and what comes
//! out of it.

pub mod answers;
pub mod artifacts;
pub mod caches;
pub mod console;
pub mod findings;
pub mod history;
pub mod images;
pub mod journal;
pub mod logs;
pub mod machine;
pub mod messages;
pub mod pool;
pub mod queries;
pub mod remote;
pub mod reports;
pub mod retention;
pub mod runners;
pub mod settings;
pub mod texts;
