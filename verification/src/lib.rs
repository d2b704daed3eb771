//! HATCH: planning, agent orchestration and run supervision for a multi-agent
//! code generator, with the decision logic of every stage verified.
pub mod text;
pub mod fence;
pub mod ids;
pub mod types;
pub mod llm;
pub mod bus;
pub mod supervisor;
pub mod materialize;
pub mod planner;
pub mod agent;
pub mod spawner;
pub mod chat;
pub mod stream;
pub mod pipeline;
pub mod paths;
pub mod console;
pub mod config;
