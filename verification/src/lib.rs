//! Parser and resolver for digital twin model documents.
#![allow(non_snake_case)]

pub mod classify;
pub mod contents;
pub mod dtmi;
pub mod dtmi_order;
pub mod entity;
pub mod entity_info;
pub mod entity_kind;
pub mod error;
pub mod extension;
pub mod flags;
pub mod json_value;
pub mod laws;
pub mod led_display;
pub mod links;
pub mod members;
pub mod model_parser;
pub mod provider_action;
pub mod references;
pub mod resolve;
pub mod rules;
pub mod speedometer;
pub mod standard;
pub mod text;
pub mod walk;
