//! An HTTP(S) and WebSocket client core: request building, wire-format
//! construction, response parsing, redirect handling, and the WebSocket
//! handshake and frame codec, with machine-checked contracts.
//!
//! All transport I/O (TCP, TLS, proxy negotiation) is performed by a driver
//! outside this crate; the session types here decide, step by step, what the
//! driver must do next and how every byte on the wire is produced or consumed.

pub mod base64;
pub mod chunked;
pub mod codec;
pub mod engine;
pub mod error;
pub mod headers;
pub mod proxy;
pub mod response;
pub mod session;
pub mod sha1;
pub mod split;
pub mod url;
pub mod ws;

pub use codec::{SharedRequestBuilder, SharedResponseHandler};
pub use engine::{Body, Method, Proxy, RedirectAction, RequestBuilder, RequestConfig};
pub use error::RequestError;
pub use headers::HeaderMap;
pub use response::{HttpResponseBinary, HttpResponseText, HttpVersion};
pub use session::{HttpSession, Phase, SendAction};
pub use split::{split_multi_byte, split_whitespace};
pub use url::{parse_url, Scheme, Url};
pub use ws::{WebSocket, WebSocketBuilder, WebSocketMessage, WsState, WsStep};
