pub mod assettype;
pub mod data;
pub mod decimal;
pub mod depth;
pub mod error;
pub mod evs;
pub mod lifecycle;
pub mod models;
pub mod order_bus;
pub mod processor;
pub mod recorder;
pub mod replay;
pub mod rules;
pub mod snapshot;
pub mod sorted_map;
pub mod state;
pub mod text;
pub mod types;
pub mod wire;
