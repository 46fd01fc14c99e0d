pub mod dates;
pub mod errors;
pub mod grouping;
pub mod handler;
pub mod helpers;
pub mod org;
pub mod orgtag;
pub mod publisher;
pub mod reader;
pub mod sorting;
pub mod templates;
pub mod text;
pub mod watch;
