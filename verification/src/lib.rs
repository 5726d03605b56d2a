//! Hierarchical, parallel state machines: a state graph that is built once, and
//! an engine that drives handles over it, one trigger at a time.

pub mod blueprint;
pub mod builder;
pub mod chart;
pub mod effect;
pub mod engine;
pub mod laws;
pub mod legal;
pub mod machine;
pub mod perform;
pub mod reader;
pub mod resolve;
pub mod restore;
pub mod result;
pub mod step;
pub mod traits;
pub mod tree;
pub mod trigger;

pub use self::builder::{StateBuilder, StateChartBuilder, TransitionBuilder};
pub use self::chart::{ActiveState, Condition, State, StateChart, StateId, StateLabel, StateNode, Transition};
pub use self::effect::Effect;
pub use self::machine::StateMachine;
pub use self::result::{StateMachineError, StateMachineResult};
pub use self::traits::{Action, ActionId, ActionLabel, Event, EventId, EventLabel};
pub use self::tree::Kind;
pub use self::trigger::Trigger;
