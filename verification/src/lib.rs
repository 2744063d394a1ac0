//! The rules of AI Remote: a browser reaches an Ollama server at home over a
//! WebRTC data channel.

pub mod access;
pub mod address;
pub mod agent;
pub mod answer;
pub mod codec;
pub mod config;
pub mod forward;
pub mod frames;
pub mod ice;
pub mod json;
pub mod rooms;
pub mod rpc;
pub mod signaling;
pub mod site;
pub mod startup;
pub mod stream;
pub mod table;
pub mod text;
pub mod turn;
