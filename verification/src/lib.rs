//! The decision core of an agent daemon: what its tools and channels decide,
//! stated as contracts and proved. Files, sockets, clocks, databases and
//! chat clients stay with the caller, which hands in plain values and carries
//! out what it is told.
pub mod a2a;
pub mod acp;
pub mod channels;
pub mod clock;
pub mod context;
pub mod db;
pub mod decisions;
pub mod json;
pub mod paths;
pub mod regexes;
pub mod search;
pub mod service;
pub mod sort;
pub mod telegram;
pub mod text;
pub mod timeout;
pub mod tools;
pub mod trello;
pub mod whatsapp;
pub mod window;
