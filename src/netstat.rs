use vstd::prelude::*;

use crate::address::{address_port, split_address};
use crate::collect::{
    collect_ports, collected, kept, lemma_collected_no_zero_port, lemma_collected_order,
    lemma_collected_unique, sorted_by_port, unique_keys, with_port,
};
use crate::record::{option_view, option_views, views, PortInfo, PortView};
use crate::text::{
    chars_of, fields, lines, parse_unsigned, parse_unsigned_spec, pieces, split_fields,
    split_lines, split_pieces, string_of, trim, trim_spec, Splitter, Trim,
};

verus! {

/// What `str::to_uppercase` makes of a text.
pub uninterp spec fn uppercase_of(s: Seq<char>) -> Seq<char>;

/// Relies on `str::to_uppercase`: the result depends on the characters of `s` alone.
#[verifier::external_body]
fn uppercase(s: &str) -> (r: String)
    ensures
        r@ == uppercase_of(s@),
{
    s.to_uppercase()
}

/// The process that one line of `tasklist /FO CSV /NH` output names, if any: its quoted image
/// name and its quoted process id.
pub open spec fn tasklist_entry(line: Seq<char>) -> Option<(u32, Seq<char>)> {
    let parts = pieces(line, Splitter::Comma);
    if parts.len() < 2 {
        None
    } else {
        match parse_unsigned_spec(trim_spec(parts[1], Trim::Quotes), 0xffff_ffff) {
            None => None,
            Some(pid) => Some((pid as u32, trim_spec(parts[0], Trim::Quotes))),
        }
    }
}

pub open spec fn tasklist_entries(ls: Seq<Seq<char>>) -> Seq<(u32, Seq<char>)>
    decreases ls.len(),
{
    if ls.len() == 0 {
        Seq::empty()
    } else {
        match tasklist_entry(ls.last()) {
            None => tasklist_entries(ls.drop_last()),
            Some(e) => tasklist_entries(ls.drop_last()).push(e),
        }
    }
}

/// The name given to a process that no table entry names.
pub open spec fn unknown_name() -> Seq<char> {
    seq!['U', 'n', 'k', 'n', 'o', 'w', 'n']
}

/// The name of `pid` in a table: the last entry for it wins.
pub open spec fn name_in(t: Seq<(u32, Seq<char>)>, pid: u32) -> Seq<char>
    decreases t.len(),
{
    if t.len() == 0 {
        unknown_name()
    } else if t.last().0 == pid {
        t.last().1
    } else {
        name_in(t.drop_last(), pid)
    }
}

/// Process names by process id, as a process listing gives them.
pub struct ProcessNames {
    pids: Vec<u32>,
    names: Vec<String>,
}

impl View for ProcessNames {
    type V = Seq<(u32, Seq<char>)>;

    closed spec fn view(&self) -> Seq<(u32, Seq<char>)> {
        Seq::new(self.pids@.len(), |i: int| (self.pids@[i], self.names@[i]@))
    }
}

impl ProcessNames {
    pub closed spec fn wf(&self) -> bool {
        self.pids@.len() == self.names@.len()
    }

    /// A table with no entry.
    pub fn new() -> (r: ProcessNames)
        ensures
            r.wf(),
            r@ == Seq::<(u32, Seq<char>)>::empty(),
    {
        let r = ProcessNames { pids: Vec::new(), names: Vec::new() };
        assert(r@ =~= Seq::<(u32, Seq<char>)>::empty());
        r
    }

    /// The table that a `tasklist /FO CSV /NH` output gives; rows that name no process id are
    /// left out.
    pub fn from_tasklist(output: &str) -> (r: ProcessNames)
        ensures
            r.wf(),
            r@ == tasklist_entries(lines(output@)),
    {
        let ls = split_lines(&chars_of(output));
        let ghost lv = ls.deep_view();
        let mut t = ProcessNames::new();
        let mut i: usize = 0;
        while i < ls.len()
            invariant
                i <= ls@.len(),
                lv == ls.deep_view(),
                t.wf(),
                t@ == tasklist_entries(lv.subrange(0, i as int)),
            decreases ls.len() - i,
        {
            let parts = split_pieces(&ls[i], Splitter::Comma);
            let ghost pv = parts.deep_view();
            assert(lv.subrange(0, i + 1).drop_last() =~= lv.subrange(0, i as int));
            assert(lv.subrange(0, i + 1).last() == ls@[i as int]@);
            if parts.len() >= 2 {
                assert(pv[1] == parts@[1]@ && pv[0] == parts@[0]@);
                match parse_unsigned(&trim(&parts[1], Trim::Quotes), 0xffff_ffff) {
                    None => {},
                    Some(pid) => {
                        let name = string_of(&trim(&parts[0], Trim::Quotes));
                        let ghost t0 = t@;
                        let ghost nv = name@;
                        t.pids.push(pid);
                        t.names.push(name);
                        assert(t@ =~= t0.push((pid, nv)));
                    },
                }
            }
            i += 1;
        }
        assert(lv.subrange(0, i as int) =~= lv);
        t
    }

    /// The name of `pid`, or `"Unknown"` where the table has none.
    pub fn name_of(&self, pid: u32) -> (r: String)
        requires
            self.wf(),
        ensures
            r@ == name_in(self@, pid),
    {
        let mut j: usize = self.pids.len();
        assert(self@.subrange(0, j as int) =~= self@);
        while j > 0
            invariant
                j <= self.pids@.len(),
                self.wf(),
                name_in(self@, pid) == name_in(self@.subrange(0, j as int), pid),
            decreases j,
        {
            if self.pids[j - 1] == pid {
                assert(self@.subrange(0, j as int).last() == self@[j - 1]);
                return self.names[j - 1].clone();
            }
            assert(self@.subrange(0, j as int).drop_last() =~= self@.subrange(0, j - 1));
            j -= 1;
        }
        let unknown: Vec<char> = vec!['U', 'n', 'k', 'n', 'o', 'w', 'n'];
        assert(unknown@ =~= unknown_name());
        string_of(&unknown)
    }
}

pub open spec fn tcp() -> Seq<char> {
    seq!['T', 'C', 'P']
}

pub open spec fn udp() -> Seq<char> {
    seq!['U', 'D', 'P']
}

/// The record that one line of `netstat -ano` output describes, given its first field
/// upper-cased as `protocol`: TCP lines carry a state before the process id, UDP lines none;
/// a process id that does not read as a number counts as 0.
pub open spec fn netstat_entry(
    line: Seq<char>,
    protocol: Seq<char>,
    names: Seq<(u32, Seq<char>)>,
) -> Option<PortView> {
    netstat_entry_of_fields(fields(line), protocol, names)
}

/// The record that one line of `netstat -ano` output describes, if any.
pub open spec fn netstat_line(line: Seq<char>, names: Seq<(u32, Seq<char>)>) -> Option<PortView> {
    let parts = fields(line);
    if parts.len() < 4 {
        None
    } else {
        netstat_entry(line, uppercase_of(parts[0]), names)
    }
}

pub open spec fn netstat_entries(ls: Seq<Seq<char>>, names: Seq<(u32, Seq<char>)>) -> Seq<
    Option<PortView>,
>
    decreases ls.len(),
{
    if ls.len() == 0 {
        Seq::empty()
    } else {
        netstat_entries(ls.drop_last(), names).push(netstat_line(ls.last(), names))
    }
}

/// The listing that a `netstat -ano` output gives, with names from `names`.
pub open spec fn netstat_ports(output: Seq<char>, names: Seq<(u32, Seq<char>)>) -> Seq<PortView> {
    collected(netstat_entries(lines(output), names))
}

fn netstat_fields_entry(parts: &Vec<Vec<char>>, protocol: &Vec<char>, names: &ProcessNames) -> (r:
    Option<PortInfo>)
    requires
        names.wf(),
    ensures
        option_view(r) == netstat_entry_of_fields(parts.deep_view(), protocol@, names@),
{
    let ghost pv = parts.deep_view();
    if parts.len() < 4 {
        return None;
    }
    let tcp_name: Vec<char> = vec!['T', 'C', 'P'];
    let udp_name: Vec<char> = vec!['U', 'D', 'P'];
    assert(tcp_name@ =~= tcp() && udp_name@ =~= udp());
    let is_tcp = same_chars(protocol, &tcp_name);
    if !is_tcp && !same_chars(protocol, &udp_name) {
        return None;
    }
    let pid_at: usize = if is_tcp {
        4
    } else {
        3
    };
    if parts.len() <= pid_at {
        return None;
    }
    assert(pv[pid_at as int] == parts@[pid_at as int]@ && pv[1] == parts@[1]@ && pv[3]
        == parts@[3]@);
    let pid: u32 = match parse_unsigned(&parts[pid_at], 0xffff_ffff) {
        Some(v) => v,
        None => 0,
    };
    let (addr, port) = split_address(&parts[1]);
    let state = if is_tcp {
        string_of(&parts[3])
    } else {
        string_of(&Vec::new())
    };
    Some(
        PortInfo {
            pid,
            process_name: names.name_of(pid),
            port,
            protocol: string_of(protocol),
            state,
            local_address: string_of(&addr),
        },
    )
}

/// The record that the fields of one line of `netstat -ano` output describe, given the first
/// field upper-cased as `protocol`: TCP lines carry a state before the process id, UDP lines
/// none; a process id that does not read as a number counts as 0.
pub open spec fn netstat_entry_of_fields(
    parts: Seq<Seq<char>>,
    protocol: Seq<char>,
    names: Seq<(u32, Seq<char>)>,
) -> Option<PortView> {
    let is_tcp = protocol == tcp();
    let pid_at: int = if is_tcp {
        4
    } else {
        3
    };
    if parts.len() < 4 || (!is_tcp && protocol != udp()) || parts.len() <= pid_at {
        None
    } else {
        let pid: u32 = match parse_unsigned_spec(parts[pid_at], 0xffff_ffff) {
            Some(v) => v as u32,
            None => 0,
        };
        let (addr, port) = address_port(parts[1]);
        Some(
            PortView {
                pid,
                process_name: name_in(names, pid),
                port,
                protocol,
                state: if is_tcp {
                    parts[3]
                } else {
                    Seq::empty()
                },
                local_address: addr,
            },
        )
    }
}

fn same_chars(a: &Vec<char>, b: &Vec<char>) -> (r: bool)
    ensures
        r == (a@ == b@),
{
    if a.len() != b.len() {
        return false;
    }
    let mut i: usize = 0;
    while i < a.len()
        invariant
            i <= a@.len() == b@.len(),
            forall|j: int| 0 <= j < i ==> a@[j] == b@[j],
        decreases a.len() - i,
    {
        if a[i] != b[i] {
            return false;
        }
        i += 1;
    }
    assert(a@ =~= b@);
    true
}

/// The record that one line of `netstat -ano` output describes, where `protocol` is its first
/// field upper-cased.
pub fn netstat_record(line: &str, protocol: &str, names: &ProcessNames) -> (r: Option<PortInfo>)
    requires
        names.wf(),
    ensures
        option_view(r) == netstat_entry(line@, protocol@, names@),
{
    let parts = split_fields(&chars_of(line));
    netstat_fields_entry(&parts, &chars_of(protocol), names)
}

fn netstat_line_record(line: &Vec<char>, names: &ProcessNames) -> (r: Option<PortInfo>)
    requires
        names.wf(),
    ensures
        option_view(r) == netstat_line(line@, names@),
{
    let parts = split_fields(line);
    if parts.len() < 4 {
        return None;
    }
    let ghost pv = parts.deep_view();
    assert(pv[0] == parts@[0]@);
    let protocol = chars_of(uppercase(string_of(&parts[0]).as_str()).as_str());
    netstat_fields_entry(&parts, &protocol, names)
}

/// The listing that a `netstat -ano` output gives, with process names from `names`:
/// lines that are not TCP or UDP records left out, duplicates and port 0 dropped, sorted by
/// port.
pub fn ports_from_netstat(output: &str, names: &ProcessNames) -> (r: Vec<PortInfo>)
    requires
        names.wf(),
    ensures
        views(r@) == netstat_ports(output@, names@),
{
    let ls = split_lines(&chars_of(output));
    let ghost lv = ls.deep_view();
    let mut cands: Vec<Option<PortInfo>> = Vec::new();
    let mut i: usize = 0;
    assert(option_views(cands@) =~= netstat_entries(lv.subrange(0, 0), names@));
    while i < ls.len()
        invariant
            i <= ls@.len(),
            lv == ls.deep_view(),
            names.wf(),
            option_views(cands@) == netstat_entries(lv.subrange(0, i as int), names@),
        decreases ls.len() - i,
    {
        let e = netstat_line_record(&ls[i], names);
        let ghost c0 = option_views(cands@);
        cands.push(e);
        proof {
            assert(lv.subrange(0, i + 1).drop_last() =~= lv.subrange(0, i as int));
            assert(lv.subrange(0, i + 1).last() == ls@[i as int]@);
            assert(option_views(cands@) =~= c0.push(option_view(e)));
        }
        i += 1;
    }
    assert(lv.subrange(0, i as int) =~= lv);
    collect_ports(cands)
}

/// Of every `netstat` output and name table: no two records share process, port and
/// protocol; no record has port 0; records ascend by port, and those of one port keep the
/// order of their first lines.
pub proof fn lemma_netstat_listing(output: Seq<char>, names: Seq<(u32, Seq<char>)>, p: u16)
    ensures
        unique_keys(netstat_ports(output, names)),
        forall|i: int|
            0 <= i < netstat_ports(output, names).len() ==> #[trigger] netstat_ports(
                output,
                names,
            )[i].port != 0,
        sorted_by_port(netstat_ports(output, names)),
        with_port(netstat_ports(output, names), p) == with_port(
            kept(netstat_entries(lines(output), names)),
            p,
        ),
{
    let c = netstat_entries(lines(output), names);
    lemma_collected_unique(c);
    lemma_collected_no_zero_port(c);
    lemma_collected_order(c, p);
}

/// A line with fewer than four fields gives no record, and adds nothing to the records kept
/// from the lines before it.
pub proof fn lemma_netstat_short_line(
    line: Seq<char>,
    before: Seq<Seq<char>>,
    names: Seq<(u32, Seq<char>)>,
)
    requires
        fields(line).len() < 4,
    ensures
        netstat_line(line, names) is None,
        kept(netstat_entries(before.push(line), names)) == kept(netstat_entries(before, names)),
{
    assert(before.push(line).drop_last() =~= before);
    let c = netstat_entries(before, names);
    assert(c.push(None::<PortView>).drop_last() =~= c);
}

} // verus!
