pub mod body_type;
pub mod error;
pub mod forward;
pub mod header_item;
pub mod header_map;
pub mod http_item;
pub mod request;
pub mod response;
pub mod text;
pub mod util;
