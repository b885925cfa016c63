//! An alchemical effect engine for a turn-based roguelike: mixing potions,
//! dispatching their effects onto targets, and resolving staged effects.

pub mod combo;
pub mod dice;
pub mod components;
pub mod damage;
pub mod effects;
pub mod inventory;
pub mod map;
pub mod mixing;
pub mod processor;
pub mod puddles;
pub mod random_table;
pub mod throwing;
pub mod using;
pub mod world;
