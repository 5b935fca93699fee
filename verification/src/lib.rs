pub mod address;
pub mod bluez;
pub mod cli;
pub mod device;
pub mod display;
pub mod jsonl;
pub mod notes;
pub mod order;
pub mod paths;
pub mod report;
pub mod search;
pub mod service;
pub mod storage;
pub mod storage_laws;
pub mod text;
pub mod timestamp;
pub mod tracking;
