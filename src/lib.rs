//! A reverse proxy core that frames HTTP/1.1 requests for a backend reached
//! over a Unix domain socket and parses the raw responses it sends back.
pub mod client;
pub mod laws;
pub mod message;
pub mod pipeline;
pub mod request;
pub mod response;
pub mod scan;
