pub mod extensions;
pub mod messages;
pub mod updater;
pub mod versions;
