// Lists the network ports in use on a host with the processes that own them, from the text
// that the platform's tools print, and reports how a request to end a process went.
pub mod address;
pub mod collect;
pub mod lsof;
pub mod netstat;
pub mod outcome;
pub mod record;
pub mod text;

pub use address::{parse_address_port, parse_windows_address};
pub use record::PortInfo;
