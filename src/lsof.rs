use vstd::prelude::*;

use crate::address::{address_port, local_endpoint, local_part, split_address};
use crate::collect::{
    collect_ports, collected, kept, lemma_collected_no_zero_port, lemma_collected_order,
    lemma_collected_unique, sorted_by_port, unique_keys, with_port,
};
use crate::record::{option_view, option_views, views, PortInfo, PortView};
use crate::text::{
    chars_of, fields, lines, parse_unsigned, parse_unsigned_spec, split_fields, split_lines,
    string_of, trim, trim_spec, Trim,
};

verus! {

/// The fewest fields that a line of `lsof -i -P -n` output must have.
pub const LSOF_MIN_FIELDS: usize = 9;

/// The record that one line of `lsof -i -P -n` output describes, if any: the command name, a
/// positive process id, the protocol and the local endpoint, with the state in parentheses
/// after them where there is one.
pub open spec fn lsof_entry(line: Seq<char>) -> Option<PortView> {
    let parts = fields(line);
    if parts.len() < LSOF_MIN_FIELDS {
        None
    } else {
        match parse_unsigned_spec(parts[1], 0xffff_ffff) {
            None => None,
            Some(pid) => if pid == 0 {
                None
            } else {
                let (addr, port) = address_port(local_endpoint(parts[8]));
                Some(
                    PortView {
                        pid: pid as u32,
                        process_name: parts[0],
                        port,
                        protocol: parts[7],
                        state: if parts.len() > 9 {
                            trim_spec(parts[9], Trim::Parens)
                        } else {
                            Seq::empty()
                        },
                        local_address: addr,
                    },
                )
            },
        }
    }
}

pub open spec fn lsof_entries(ls: Seq<Seq<char>>) -> Seq<Option<PortView>>
    decreases ls.len(),
{
    if ls.len() == 0 {
        Seq::empty()
    } else {
        lsof_entries(ls.drop_last()).push(lsof_entry(ls.last()))
    }
}

/// The lines after the header line.
pub open spec fn body_lines(ls: Seq<Seq<char>>) -> Seq<Seq<char>> {
    if ls.len() == 0 {
        ls
    } else {
        ls.drop_first()
    }
}

/// The listing that an `lsof -i -P -n` output gives.
pub open spec fn lsof_ports(output: Seq<char>) -> Seq<PortView> {
    collected(lsof_entries(body_lines(lines(output))))
}

fn lsof_line(line: &Vec<char>) -> (r: Option<PortInfo>)
    ensures
        option_view(r) == lsof_entry(line@),
{
    let parts = split_fields(line);
    if parts.len() < LSOF_MIN_FIELDS {
        return None;
    }
    let ghost pv = parts.deep_view();
    assert(pv[1] == parts@[1]@ && pv[0] == parts@[0]@ && pv[7] == parts@[7]@ && pv[8] == parts@[8]@);
    let pid = match parse_unsigned(&parts[1], 0xffff_ffff) {
        None => {
            return None;
        },
        Some(p) => p,
    };
    if pid == 0 {
        return None;
    }
    let (addr, port) = split_address(&local_part(&parts[8]));
    let state = if parts.len() > 9 {
        assert(pv[9] == parts@[9]@);
        string_of(&trim(&parts[9], Trim::Parens))
    } else {
        string_of(&Vec::new())
    };
    Some(
        PortInfo {
            pid,
            process_name: string_of(&parts[0]),
            port,
            protocol: string_of(&parts[7]),
            state,
            local_address: string_of(&addr),
        },
    )
}

/// The listing that an `lsof -i -P -n` output gives: the header line skipped, malformed lines
/// left out, duplicates and port 0 dropped, sorted by port.
pub fn ports_from_lsof(output: &str) -> (r: Vec<PortInfo>)
    ensures
        views(r@) == lsof_ports(output@),
{
    let ls = split_lines(&chars_of(output));
    let ghost body = body_lines(ls.deep_view());
    let mut cands: Vec<Option<PortInfo>> = Vec::new();
    let mut i: usize = 1;
    if ls.len() == 0 {
        assert(option_views(cands@) =~= lsof_entries(body));
        return collect_ports(cands);
    }
    assert(option_views(cands@) =~= lsof_entries(body.subrange(0, 0)));
    while i < ls.len()
        invariant
            1 <= i <= ls@.len(),
            body == ls.deep_view().drop_first(),
            option_views(cands@) == lsof_entries(body.subrange(0, i - 1)),
        decreases ls.len() - i,
    {
        let e = lsof_line(&ls[i]);
        let ghost c0 = option_views(cands@);
        cands.push(e);
        proof {
            assert(body.subrange(0, i as int).drop_last() =~= body.subrange(0, i - 1));
            assert(body.subrange(0, i as int).last() == ls@[i as int]@);
            assert(option_views(cands@) =~= c0.push(option_view(e)));
        }
        i += 1;
    }
    assert(body.subrange(0, i - 1) =~= body);
    collect_ports(cands)
}

/// Of every `lsof` output: no two records share process, port and protocol; no record has
/// port 0; records ascend by port, and those of one port keep the order of their first lines.
pub proof fn lemma_lsof_listing(output: Seq<char>, p: u16)
    ensures
        unique_keys(lsof_ports(output)),
        forall|i: int|
            0 <= i < lsof_ports(output).len() ==> #[trigger] lsof_ports(output)[i].port != 0,
        sorted_by_port(lsof_ports(output)),
        with_port(lsof_ports(output), p) == with_port(
            kept(lsof_entries(body_lines(lines(output)))),
            p,
        ),
{
    let c = lsof_entries(body_lines(lines(output)));
    lemma_collected_unique(c);
    lemma_collected_no_zero_port(c);
    lemma_collected_order(c, p);
}

/// A line with fewer than nine fields gives no record, and adds nothing to the records
/// kept from the lines before it.
pub proof fn lemma_lsof_short_line(line: Seq<char>, before: Seq<Seq<char>>)
    requires
        fields(line).len() < LSOF_MIN_FIELDS,
    ensures
        lsof_entry(line) is None,
        kept(lsof_entries(before.push(line))) == kept(lsof_entries(before)),
{
    assert(before.push(line).drop_last() =~= before);
    let c = lsof_entries(before);
    assert(c.push(None::<PortView>).drop_last() =~= c);
}

} // verus!
