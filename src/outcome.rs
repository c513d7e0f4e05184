use vstd::prelude::*;
use vstd::string::StringExecFns;

use crate::lsof::{lsof_ports, ports_from_lsof};
use crate::netstat::{netstat_ports, ports_from_netstat, tasklist_entries, ProcessNames};
use crate::record::{views, PortInfo, PortView};
use crate::text::{decimal_text, lines, push_decimal, string_of};

verus! {

/// How one run of an outside tool ended.
pub enum ToolRun {
    /// The tool could not be started; `reason` is what the system said.
    NotStarted { reason: String },
    /// The tool ran to its end, successfully or not, with what it wrote.
    Finished { success: bool, stdout: String, stderr: String },
}

/// The message for a tool that could not be started.
pub open spec fn launch_error(tool: Seq<char>, reason: Seq<char>) -> Seq<char> {
    "Failed to execute "@ + tool + ": "@ + reason
}

/// The message for a listing tool that ended without success.
pub open spec fn tool_failure(tool: Seq<char>) -> Seq<char> {
    tool + " command failed"@
}

pub open spec fn kill_success(pid: u32) -> Seq<char> {
    "Process "@ + decimal_text(pid as nat) + " terminated"@
}

pub open spec fn kill_failure(pid: u32, diagnostic: Seq<char>) -> Seq<char> {
    "Failed to kill process "@ + decimal_text(pid as nat) + ": "@ + diagnostic
}

pub open spec fn listing_view(r: Result<Vec<PortInfo>, String>) -> Result<Seq<PortView>, Seq<char>> {
    match r {
        Ok(v) => Ok(views(v@)),
        Err(e) => Err(e@),
    }
}

pub open spec fn message_view(r: Result<String, String>) -> Result<Seq<char>, Seq<char>> {
    match r {
        Ok(m) => Ok(m@),
        Err(e) => Err(e@),
    }
}

/// What a listing comes to on the Unix-like family, from the run of `lsof -i -P -n`.
pub open spec fn unix_listing(lsof: ToolRun) -> Result<Seq<PortView>, Seq<char>> {
    match lsof {
        ToolRun::NotStarted { reason } => Err(launch_error("lsof"@, reason@)),
        ToolRun::Finished { success, stdout, stderr } => if success {
            Ok(lsof_ports(stdout@))
        } else {
            Err(tool_failure("lsof"@))
        },
    }
}

/// What a listing comes to on the Windows-like family, from the runs of `netstat -ano` and
/// `tasklist /FO CSV /NH`; a process listing that ended without success names no process.
pub open spec fn windows_listing(netstat: ToolRun, tasklist: ToolRun) -> Result<
    Seq<PortView>,
    Seq<char>,
> {
    match netstat {
        ToolRun::NotStarted { reason } => Err(launch_error("netstat"@, reason@)),
        ToolRun::Finished { success, stdout, stderr } => if !success {
            Err(tool_failure("netstat"@))
        } else {
            match tasklist {
                ToolRun::NotStarted { reason } => Err(launch_error("tasklist"@, reason@)),
                ToolRun::Finished { success: listed, stdout: names, stderr: _ } => Ok(
                    netstat_ports(
                        stdout@,
                        if listed {
                            tasklist_entries(lines(names@))
                        } else {
                            Seq::empty()
                        },
                    ),
                ),
            }
        },
    }
}

/// What a request to end process `pid` comes to, from the run of the termination tool `tool`.
pub open spec fn kill_outcome(tool: Seq<char>, pid: u32, run: ToolRun) -> Result<
    Seq<char>,
    Seq<char>,
> {
    match run {
        ToolRun::NotStarted { reason } => Err(launch_error(tool, reason@)),
        ToolRun::Finished { success, stdout, stderr } => if success {
            Ok(kill_success(pid))
        } else {
            Err(kill_failure(pid, stderr@))
        },
    }
}

fn launch_message(tool: &str, reason: &String) -> (r: String)
    ensures
        r@ == launch_error(tool@, reason@),
{
    let mut m = String::from_str("Failed to execute ");
    m.append(tool);
    m.append(": ");
    m.append(reason.as_str());
    m
}

fn failure_message(tool: &str) -> (r: String)
    ensures
        r@ == tool_failure(tool@),
{
    let mut m = String::from_str(tool);
    m.append(" command failed");
    m
}

fn decimal_string(n: u32) -> (r: String)
    ensures
        r@ == decimal_text(n as nat),
{
    let mut digits: Vec<char> = Vec::new();
    push_decimal(&mut digits, n);
    assert(digits@ =~= decimal_text(n as nat));
    string_of(&digits)
}

/// The listing on the Unix-like family, from the run of `lsof -i -P -n`.
pub fn get_ports_macos(lsof: ToolRun) -> (r: Result<Vec<PortInfo>, String>)
    ensures
        listing_view(r) == unix_listing(lsof),
{
    match lsof {
        ToolRun::NotStarted { reason } => Err(launch_message("lsof", &reason)),
        ToolRun::Finished { success, stdout, stderr } => {
            if success {
                Ok(ports_from_lsof(stdout.as_str()))
            } else {
                Err(failure_message("lsof"))
            }
        },
    }
}

/// The listing on the Windows-like family, from the runs of `netstat -ano` and
/// `tasklist /FO CSV /NH`.
pub fn get_ports_windows(netstat: ToolRun, tasklist: ToolRun) -> (r: Result<Vec<PortInfo>, String>)
    ensures
        listing_view(r) == windows_listing(netstat, tasklist),
{
    match netstat {
        ToolRun::NotStarted { reason } => Err(launch_message("netstat", &reason)),
        ToolRun::Finished { success, stdout, stderr } => {
            if !success {
                return Err(failure_message("netstat"));
            }
            let names = match tasklist {
                ToolRun::NotStarted { reason } => {
                    return Err(launch_message("tasklist", &reason));
                },
                ToolRun::Finished { success: listed, stdout: table, stderr: _ } => {
                    if listed {
                        ProcessNames::from_tasklist(table.as_str())
                    } else {
                        ProcessNames::new()
                    }
                },
            };
            Ok(ports_from_netstat(stdout.as_str(), &names))
        },
    }
}

/// What a request to end process `pid` comes to, from the run of the termination tool `tool`:
/// success is what the tool's exit status says, and a failure carries the tool's diagnostic.
pub fn kill_result(tool: &str, pid: u32, run: ToolRun) -> (r: Result<String, String>)
    ensures
        message_view(r) == kill_outcome(tool@, pid, run),
{
    match run {
        ToolRun::NotStarted { reason } => Err(launch_message(tool, &reason)),
        ToolRun::Finished { success, stdout, stderr } => {
            if success {
                let mut m = String::from_str("Process ");
                m.append(decimal_string(pid).as_str());
                m.append(" terminated");
                Ok(m)
            } else {
                let mut m = String::from_str("Failed to kill process ");
                m.append(decimal_string(pid).as_str());
                m.append(": ");
                m.append(stderr.as_str());
                Err(m)
            }
        },
    }
}

} // verus!
