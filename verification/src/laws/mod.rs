//! What holds of the library as a whole, stated over the texts, events and requests
//! that go in and the answers that come out.

pub mod text;
pub mod reasoning;
pub mod streaming;
pub mod events;
pub mod answers;
pub mod frames;
pub mod models;
pub mod requests;
pub mod replies;
pub mod numbers;
pub mod views;
