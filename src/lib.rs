//! A pool of vanity addresses: keys derived from one authority key and a
//! random seed whose base58 text ends with a chosen suffix.

pub mod address;
pub mod search;
pub mod service;
