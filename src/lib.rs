//! Decisions of a staking auto-compounder: when to claim and re-bond rewards,
//! how to reduce per-validator chain data to the optimizer's inputs, and the
//! order in which a claim and a re-bond are carried out.

pub mod aggregate;
pub mod control;
pub mod cycle;
pub mod decimal;
pub mod error;
pub mod interval;
pub mod schedule;
