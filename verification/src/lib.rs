//! An in-process publish/subscribe message bus and cooperative task
//! scheduler. Tasks publish and subscribe to hierarchical topics; each
//! message is a typed row batch (a `Record`). A runner routes records
//! between tasks on per-subscription queues, keeps per-topic history,
//! plans on-disk spills of that history, and drives task lifecycle
//! through stage controllers.

pub mod ardulink;
pub mod auto_stage;
pub mod builders;
pub mod clock;
pub mod exec_stage;
pub mod flatten;
pub mod info;
pub mod json;
pub mod logging;
pub mod matcher;
pub mod record;
pub mod runner;
pub mod stage_control;
pub mod state;
pub mod subscription_queue;
pub mod task;
pub mod testtasks;
pub mod text;
pub mod util;
pub mod watchdogs;
