pub mod accounts;
pub mod audit;
pub mod budgets;
pub mod capture;
pub mod categorize;
pub mod codec;
pub mod connections;
pub mod cross_source;
pub mod currency_migration;
pub mod date;
pub mod decimal;
pub mod documents;
pub mod editing;
pub mod entities;
pub mod error;
pub mod export;
pub mod hashchain;
pub mod imports;
pub mod journal;
pub mod json;
pub mod ledger;
pub mod listing;
pub mod matcher;
pub mod minor_units;
pub mod model;
pub mod money;
pub mod order;
pub mod payees;
pub mod previews;
pub mod rates;
pub mod refunds;
pub mod reports;
pub mod rules;
pub mod spending;
pub mod splits;
pub mod text;
pub mod totals;

pub use error::{Error, Result};
