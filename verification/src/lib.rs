//! Shared protocol for barcode scanner communication over a QUIC stream,
//! together with the receiver-side bookkeeping that answers the phone.

pub mod card;
pub mod display;
pub mod entry;
pub mod error;
pub mod kind;
pub mod labels;
pub mod numbers;
pub mod order;
pub mod pairing;
pub mod scan;
pub mod shops;
pub mod store;
pub mod sync;
pub mod table;
pub mod text;
pub mod wire;

pub use card::extract_card_number;
pub use entry::ScanEntry;
pub use error::ProtoError;
pub use kind::CodeKind;
pub use scan::{check_ack, encode_scan, recv_scan, recv_scan_with_kind, ScanResult, ACK};
pub use shops::{detect_shops, shop_url, Shop};
pub use store::SyncStore;
pub use sync::{
    decode_sync_all_reply, decode_sync_poll_reply, decode_sync_poll_request,
    encode_sync_all_reply, encode_sync_all_request, encode_sync_poll_reply,
    encode_sync_poll_request, route_stream, StreamRoute, SYNC_ALL, SYNC_POLL,
};
