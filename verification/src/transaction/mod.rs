pub mod event;
pub mod invite_client;
pub mod non_invite_server;
