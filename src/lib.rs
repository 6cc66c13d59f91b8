//! An in-memory securities market: instruments whose prices random-walk,
//! accounts holding cash and positions with an exact cost basis, a
//! leaderboard of net worth, and the sessions that bind a connection to an
//! account.
//!
//! All money is held as integer cents.
use vstd::prelude::*;

pub mod error;
pub mod client_tracker;
pub mod company;
pub mod company_manager;
pub mod data_saving;
pub mod epoch;
pub mod http;
pub mod id;
pub mod password;
pub mod ranking;
pub mod request;
pub mod stock;
pub mod text;
pub mod user;
pub mod user_manager;

pub use client_tracker::{ClientTracker, ConnectedClient};
pub use company::Company;
pub use company_manager::CompanyManager;
pub use data_saving::SaveData;
pub use error::MarketError;
pub use id::{IdIssuer, ID};
pub use password::Password;
pub use ranking::{Rank, Ranker, RankerHistory};
pub use stock::{Stock, StockHolder, StockWallet};
pub use user::User;
pub use user_manager::UserManager;
