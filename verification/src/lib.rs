//! In-memory room and presence state for a real-time chat relay.
//!
//! The library tracks which connection is bound to which user and room,
//! serializes membership changes, keeps per-room message history, and
//! computes the fan-out of every outbound notification as plain data.
//! The transport layer that delivers those notifications lives outside
//! the library and calls in through the handlers.

pub mod events;
pub mod handlers;
pub mod models;
pub mod ownership;
pub mod parking;
pub mod state;

pub use models::ChatMessage;
pub use models::JoinRoomData;
pub use models::RoomUsersData;
pub use models::SendMessageData;
pub use models::TypingData;
pub use models::User;
pub use models::UserJoinedData;
pub use models::UserLeftData;
pub use events::Event;
pub use events::OutboundEvent;
pub use events::Target;
pub use handlers::SendError;
pub use ownership::first_word;
pub use parking::ParkingLot;
pub use parking::Spot;
pub use parking::Vehicle;
pub use parking::VehicleEntry;
pub use state::AppState;
