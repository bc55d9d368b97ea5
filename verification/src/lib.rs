pub mod addresses;
pub mod assoc;
pub mod backend;
pub mod bytes;
pub mod checksum;
pub mod classify;
pub mod cli;
pub mod clock;
pub mod coin_select;
pub mod confirm;
pub mod decoy;
pub mod descriptor;
pub mod electrum;
pub mod error;
pub mod grouping;
pub mod import;
pub mod keys;
pub mod listing;
pub mod multisig;
pub mod next_address;
pub mod open;
pub mod primitives;
pub mod query;
pub mod random;
pub mod raw_tx;
pub mod recovery;
pub mod signing;
pub mod spend_info;
pub mod spending;
pub mod store;
pub mod swapcoin;
pub mod sweep;
pub mod sync;
pub mod text;
pub mod wallet;
pub mod watch;
