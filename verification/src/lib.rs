//! Decision logic of a Slack assistant that greets members, reports their
//! remaining GitHub tasks and understands short Japanese requests.

mod text;
pub mod cabocha;
pub mod args;
pub mod callform;
pub mod command;
pub mod pattern;
pub mod detector;
pub mod rewriter;
pub mod sched;
pub mod remote;
mod random;
pub mod messages;
pub mod exec;
pub mod persistent;
pub mod slack;
pub mod bot;
pub mod trace;
