//! Keyword highlights for a chat service: resolving command arguments to
//! channels and users, matching messages against keyword subscriptions,
//! the watch that holds a notification back while the conversation goes on,
//! the content of the notification, and the stores that record sent
//! notifications and recipients that cannot be reached.

pub mod channels;
pub mod matcher;
pub mod monitoring;
pub mod notification;
pub mod payload;
pub mod seqs;
pub mod settings;
pub mod text;
pub mod user_state;
pub mod users;
pub mod watch;
