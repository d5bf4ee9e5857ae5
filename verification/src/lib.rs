//! Verified core of a terminal radio player: playlist parsing, ICY stream
//! demultiplexing, favorites, history, station health and the screen logic.

pub mod text;
pub mod station;
pub mod m3u;
pub mod entries;
pub mod pls;
pub mod stream;
pub mod favorites;
pub mod history;
pub mod health;
pub mod search;
pub mod labels;
pub mod cache;
pub mod control;
pub mod order;
pub mod logger;
pub mod paths;
pub mod scan;
pub mod location;
