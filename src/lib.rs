pub mod layout;
pub mod annotated;
pub mod events;
pub mod replay;
pub mod cost;
pub mod simple;
pub mod quality;
pub mod anneal;
pub mod codec;
