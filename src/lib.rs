//! Session core of a multi-service container shell: badge extraction from page
//! titles, the lifecycle of one content view per configured service, visibility
//! switching, service-list reconciliation and hibernation of idle views.
//!
//! The library decides; the rendering host acts. Every operation on the session
//! state appends the host commands it requires to a caller-supplied list, so the
//! caller can release any lock before talking to the host.
pub mod badge;
pub mod config;
pub mod laws;
pub mod menu;
pub mod webviews;
