//! The insert pipeline: planning, placement, batching and the durable
//! watermark.
pub mod ack;
pub mod ack_history;
pub mod batch_hub;
pub mod batch_laws;
pub mod batcher;
pub mod bootstrap;
pub mod bootstrap_drain;
pub mod bootstrap_fetch;
pub mod bootstrap_replay;
pub mod budget;
pub mod commit;
pub mod commit_laws;
pub mod commit_run;
pub mod decode;
pub mod delivery_laws;
pub mod execute;
pub mod fatal;
pub mod housekeeping;
pub mod inserter;
pub mod load_laws;
pub mod opt_in;
pub mod plan_laws;
pub mod plan_replay;
pub mod plan_spool;
pub mod plan_stream;
pub mod planner;
pub mod planner_laws;
pub mod reorder;
pub mod reorder_laws;
pub mod resolver;
pub mod route_view;
pub mod snowflake_tail;
pub mod standup;
pub mod step_laws;
pub mod table_worker;
pub mod tail;
