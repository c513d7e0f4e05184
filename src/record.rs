use vstd::prelude::*;

verus! {

/// One binding of a local network port to the process that owns it.
#[derive(Debug, Clone)]
pub struct PortInfo {
    pub pid: u32,
    pub process_name: String,
    pub port: u16,
    pub protocol: String,
    pub state: String,
    pub local_address: String,
}

/// The value of a `PortInfo`, with its strings as character sequences.
pub ghost struct PortView {
    pub pid: u32,
    pub process_name: Seq<char>,
    pub port: u16,
    pub protocol: Seq<char>,
    pub state: Seq<char>,
    pub local_address: Seq<char>,
}

impl View for PortInfo {
    type V = PortView;

    open spec fn view(&self) -> PortView {
        PortView {
            pid: self.pid,
            process_name: self.process_name@,
            port: self.port,
            protocol: self.protocol@,
            state: self.state@,
            local_address: self.local_address@,
        }
    }
}

pub open spec fn views(s: Seq<PortInfo>) -> Seq<PortView> {
    s.map_values(|p: PortInfo| p@)
}

pub open spec fn option_view(c: Option<PortInfo>) -> Option<PortView> {
    match c {
        Some(p) => Some(p@),
        None => None,
    }
}

pub open spec fn option_views(s: Seq<Option<PortInfo>>) -> Seq<Option<PortView>> {
    s.map_values(|c: Option<PortInfo>| option_view(c))
}

} // verus!
