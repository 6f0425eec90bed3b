//! Verified core of a personal assistant runtime: message routing, group
//! queueing, scheduling, IPC authorisation, container planning and the
//! exchange broker. Everything that talks to the operating system or the
//! network lives in the application crate around this library.

pub mod agent_runner_command;
pub mod agent_runner_container;
pub mod channel_outbound;
pub mod command_executor;
pub mod container_runner;
pub mod cron_schedule;
pub mod db;
pub mod discord_channel;
pub mod duration;
pub mod env_file;
pub mod group_queue;
pub mod inbound_bridge;
pub mod ipc_watcher;
pub mod json;
pub mod mount_security;
pub mod name_map;
pub mod number;
pub mod orchestrator;
pub mod outbound_command;
pub mod paths;
pub mod router;
pub mod settings;
pub mod skill_loader;
pub mod state_migration;
pub mod task_scheduler;
pub mod text;
pub mod timestamp;
pub mod timezone;
pub mod types;
pub mod upbit_broker;
