//! A community-messaging game bot, as a verified library: the long-poll
//! event model and its message parser, the perceptual-image matcher, the
//! progress store with its atomic primitives, and the stage-completion
//! engines built on them. Network transport, the real durable backend and
//! process wiring live with the caller.

pub mod behavior;
pub mod img_match;
pub mod json;
pub mod storage;
pub mod text;
pub mod vkapi;
