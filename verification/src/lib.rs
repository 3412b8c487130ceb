pub mod addr;
pub mod auth;
pub mod backend;
pub mod body;
pub mod certificate;
pub mod connect;
pub mod crypto;
pub mod dns;
pub mod endpoint;
pub mod event;
pub mod exchange;
pub mod forward;
pub mod frame;
pub mod host;
pub mod http1;
pub mod icann;
pub mod instance;
pub mod issuing;
pub mod lifecycle;
pub mod metadata;
pub mod notation;
pub mod packet;
pub mod peers;
pub mod policy;
pub mod relay;
pub mod relay_client;
pub mod reply;
pub mod response;
pub mod routing;
pub mod seeds;
pub mod selection;
pub mod status;
pub mod store;
pub mod sync;
pub mod target;
pub mod text;
pub mod tls;
pub mod tunnel;
pub mod wire;
