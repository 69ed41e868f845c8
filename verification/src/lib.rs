pub mod analysis;
pub mod assoc;
pub mod client;
pub mod messages;
pub mod scan;
pub mod song_data;
