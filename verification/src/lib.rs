pub mod clock;
pub mod corruption;
pub mod engine;
pub mod field_map;
pub mod frame;
pub mod message;
pub mod message_lemmas;
pub mod message_optimised;
pub mod roundtrip;
pub mod tag;
pub mod text;
pub mod wire;
