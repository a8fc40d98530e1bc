//! What the operations are for, stated of all their inputs.

pub mod answers;
pub mod balance;
pub mod breakers;
pub mod cat;
pub mod commands;
pub mod console;
pub mod dates;
pub mod deciders;
pub mod explain;
pub mod figures;
pub mod forms;
pub mod index_settings;
pub mod listed;
pub mod misc;
pub mod moved;
pub mod objects;
pub mod pages;
pub mod passage;
pub mod pools;
pub mod reading;
pub mod records;
pub mod replicas;
pub mod repository;
pub mod restore;
pub mod scrape;
pub mod seconds;
pub mod settings;
pub mod snapshot;
pub mod stays;
pub mod steps;
pub mod table;
pub mod tables;
pub mod taken;
pub mod texts;
pub mod told;
pub mod views;
pub mod words;
pub mod zones;
