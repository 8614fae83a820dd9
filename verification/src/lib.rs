//! Game rules of a team auto-battler: the battle engine (queues of actions
//! and events, effects, expressions, statuses, strikes and fatigue), the
//! arena run kept by the server (shop, gold, lives, rewards), the meta shop,
//! and the state the client keeps and sends.
use vstd::prelude::*;

pub mod colors;
pub mod world;
pub mod expression;
pub mod random;
pub mod action;
pub mod effect;
pub mod event;
pub mod battle;
pub mod model;
pub mod arena;
pub mod meta_shop;
pub mod bindings;
pub mod login;
pub mod cli;
pub mod shop;
pub mod status_pool;

verus! {
} // verus!
