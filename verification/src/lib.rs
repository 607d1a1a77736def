pub mod agent;
pub mod approval;
pub mod bytes;
pub mod checklist;
pub mod cli;
pub mod command;
pub mod config;
pub mod entries;
pub mod environment;
pub mod journal;
pub mod message;
pub mod outside;
pub mod path;
pub mod protocol;
pub mod provider;
pub mod text;
pub mod tools;
