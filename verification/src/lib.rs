pub mod cache;
pub mod forward;
pub mod message;
pub mod processor;
pub mod resolvers;
