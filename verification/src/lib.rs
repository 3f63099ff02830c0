//! KATCP, the Karoo Array Telescope Control Protocol, version 5: messages and their wire format,
//! types and their encodings, sensors and how they are sampled, a device server and a device client.
//!
//! The library computes and decides; it does no input or output. A server is told of connections,
//! lines and updates and says what is to be sent; a client likewise. What the machine supplies (the
//! time, and floating-point numbers with their printed forms) comes in as arguments.
//!
//! Each type has a mathematical counterpart that its view gives, named like it with `View` behind.
//! The contracts speak of these. What holds of the library as a whole is stated in the modules whose
//! names end in `laws`, and beside the items that it is about.

pub mod address;
pub mod answer_laws;
pub mod client;
pub mod client_laws;
pub mod client_model;
pub mod decimal;
pub mod dispatch_laws;
pub mod filter;
pub mod float;
pub mod line;
pub mod line_laws;
pub mod message;
pub mod protocol;
pub mod protocol_laws;
pub mod sampling;
pub mod sampling_laws;
pub mod sensor;
pub mod sensor_laws;
pub mod server;
pub mod server_laws;
pub mod server_model;
pub mod text;
pub mod text_laws;
pub mod types;
pub mod types_laws;
pub mod view_laws;
pub mod wire;
pub mod wire_laws;

pub use client::DeviceClient;
pub use client::SensorUpdate;
pub use message::Message;
pub use message::MessageParser;
pub use message::MessageType;
pub use protocol::ProtocolFlags;
pub use sampling::SamplingStrategy;
pub use sensor::Sensor;
pub use sensor::SensorReading;
pub use sensor::SensorStatus;
pub use sensor::SensorType;
pub use server::DeviceServer;
pub use types::KatcpType;
