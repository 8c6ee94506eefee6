//! A scripting engine for pricing: expression trees of scripts, their indexing against
//! market data requests, and the market data stores they are evaluated against.

pub mod assoc;
pub mod currency;
pub mod date;
pub mod dated;
pub mod error;
pub mod event;
pub mod fxpath;
pub mod ifprocessor;
pub mod indexer;
pub mod marketdata;
pub mod node;
pub mod requests;
pub mod simdata;
pub mod termstructure;
