//! Verified core of a chess-playing neural-network trainer: the activation
//! function catalogue, the network's file format and hash, the board encoding
//! fed to the network, the bookkeeping of tournaments between players, the
//! selection between tournaments, and the reading of configuration answers.

pub mod activation;
pub mod board;
pub mod config;
pub mod extensions;
pub mod game;
pub mod hashing;
pub mod nn;
pub mod nn_file;
pub mod selection;
