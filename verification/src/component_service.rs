//! The records of the system reports: processes, memory and the host.

use vstd::prelude::*;
use crate::scan::{size_in_mb, whole_mb};
use crate::table_builder::{MagicTable, pair_texts};
use crate::text::{decimal, i32_text, signed_decimal, u64_text};

verus! {

/// One line of the list of running processes.
#[derive(Debug, Clone, PartialEq, Eq)]
pub struct JoltOutput {
    pub user: String,
    pub pid: String,
    pub cpu: String,
    pub mem: i32,
    pub vsz: String,
    pub rss: String,
    pub tty: String,
    pub stat: String,
    pub start: String,
    pub time: String,
    pub command: String,
}

impl MagicTable for JoltOutput {
    open spec fn table_rows(&self) -> Seq<(Seq<char>, Seq<char>)> {
        seq![
            ("User"@, self.user@),
            ("PID"@, self.pid@),
            ("%CPU"@, self.cpu@),
            ("%MEM"@, signed_decimal(self.mem as int)),
            ("VSZ"@, self.vsz@),
            ("RSS"@, self.rss@),
            ("TTY"@, self.tty@),
            ("STAT"@, self.stat@),
            ("START"@, self.start@),
            ("TIME"@, self.time@),
            ("COMMAND"@, self.command@),
        ]
    }

    fn build_table(&self) -> (rows: Vec<(String, String)>) {
        let mut rows: Vec<(String, String)> = Vec::new();
        rows.push(("User".to_owned(), self.user.clone()));
        rows.push(("PID".to_owned(), self.pid.clone()));
        rows.push(("%CPU".to_owned(), self.cpu.clone()));
        rows.push(("%MEM".to_owned(), i32_text(self.mem)));
        rows.push(("VSZ".to_owned(), self.vsz.clone()));
        rows.push(("RSS".to_owned(), self.rss.clone()));
        rows.push(("TTY".to_owned(), self.tty.clone()));
        rows.push(("STAT".to_owned(), self.stat.clone()));
        rows.push(("START".to_owned(), self.start.clone()));
        rows.push(("TIME".to_owned(), self.time.clone()));
        rows.push(("COMMAND".to_owned(), self.command.clone()));
        assert(pair_texts(rows@) =~= self.table_rows());
        rows
    }
}

/// What ends the first line of a record's text.
pub open spec fn first_break() -> Seq<char> {
    " \n \n            "@
}

/// What ends each further line of a record's text but the last.
pub open spec fn line_break() -> Seq<char> {
    " \n\n            "@
}

impl JoltOutput {
    /// The record as text, one titled line for each field.
    pub open spec fn shown(&self) -> Seq<char> {
        "Effective User Id "@ + self.user@ + first_break() + "Process Id "@ + self.pid@
            + line_break() + "Cpu Usage "@ + self.cpu@ + line_break() + "Memory Usage "@
            + signed_decimal(self.mem as int) + line_break() + "Virtual Memory Size in KiB"@
            + self.vsz@ + line_break() + "Resident Set Size in KiB "@ + self.rss@ + line_break()
            + "Controlling Terminal "@ + self.tty@ + line_break() + "Process State "@ + self.stat@
            + line_break() + "Start Time "@ + self.start@ + line_break() + "Cumulative CPU Time "@
            + self.time@ + line_break() + "Command "@ + self.command@ + " \n"@
    }

    /// The record as text, one titled line for each field.
    pub fn to_text(&self) -> (text: String)
        ensures
            text@ == self.shown(),
    {
        let mut text = "Effective User Id ".to_owned();
        text.append(self.user.as_str());
        text.append(" \n \n            ");
        text.append("Process Id ");
        text.append(self.pid.as_str());
        text.append(" \n\n            ");
        text.append("Cpu Usage ");
        text.append(self.cpu.as_str());
        text.append(" \n\n            ");
        text.append("Memory Usage ");
        text.append(i32_text(self.mem).as_str());
        text.append(" \n\n            ");
        text.append("Virtual Memory Size in KiB");
        text.append(self.vsz.as_str());
        text.append(" \n\n            ");
        text.append("Resident Set Size in KiB ");
        text.append(self.rss.as_str());
        text.append(" \n\n            ");
        text.append("Controlling Terminal ");
        text.append(self.tty.as_str());
        text.append(" \n\n            ");
        text.append("Process State ");
        text.append(self.stat.as_str());
        text.append(" \n\n            ");
        text.append("Start Time ");
        text.append(self.start.as_str());
        text.append(" \n\n            ");
        text.append("Cumulative CPU Time ");
        text.append(self.time.as_str());
        text.append(" \n\n            ");
        text.append("Command ");
        text.append(self.command.as_str());
        text.append(" \n");
        text
    }
}

/// What is known of the host.
#[derive(Debug, Clone, PartialEq, Eq)]
pub struct SystemInformation {
    pub name: String,
    pub os_version: String,
    pub host_name: String,
    pub uptime: u64,
    pub total_cpus: u64,
    pub total_memory: u64,
    pub cpu_arch: String,
}

impl SystemInformation {
    /// The record as text, one titled line for each field.
    pub open spec fn shown(&self) -> Seq<char> {
        "Name "@ + self.name@ + first_break() + "Os Version "@ + self.os_version@ + line_break()
            + "Hostname "@ + self.host_name@ + line_break() + "uptime "@ + decimal(
            self.uptime as nat,
        ) + line_break() + "total cpus "@ + decimal(self.total_cpus as nat) + line_break()
            + "total memory "@ + decimal(self.total_memory as nat) + line_break() + "cpu arch "@
            + self.cpu_arch@ + " \n"@
    }

    /// The record as text, one titled line for each field.
    pub fn to_text(&self) -> (text: String)
        ensures
            text@ == self.shown(),
    {
        let mut text = "Name ".to_owned();
        text.append(self.name.as_str());
        text.append(" \n \n            ");
        text.append("Os Version ");
        text.append(self.os_version.as_str());
        text.append(" \n\n            ");
        text.append("Hostname ");
        text.append(self.host_name.as_str());
        text.append(" \n\n            ");
        text.append("uptime ");
        text.append(u64_text(self.uptime).as_str());
        text.append(" \n\n            ");
        text.append("total cpus ");
        text.append(u64_text(self.total_cpus).as_str());
        text.append(" \n\n            ");
        text.append("total memory ");
        text.append(u64_text(self.total_memory).as_str());
        text.append(" \n\n            ");
        text.append("cpu arch ");
        text.append(self.cpu_arch.as_str());
        text.append(" \n");
        text
    }
}

/// Memory and swap, in whole megabytes.
#[derive(Debug, Clone, Copy, PartialEq, Eq)]
pub struct SystemMemory {
    pub total_memory: u64,
    pub used_memory: u64,
    pub total_swap: u64,
    pub used_swap: u64,
}

/// The memory report for the given numbers of bytes: each in whole
/// megabytes, rounded down.
pub fn get_system_memory(total_memory: u64, used_memory: u64, total_swap: u64, used_swap: u64) -> (report:
    SystemMemory)
    ensures
        report.total_memory == whole_mb(total_memory),
        report.used_memory == whole_mb(used_memory),
        report.total_swap == whole_mb(total_swap),
        report.used_swap == whole_mb(used_swap),
{
    SystemMemory {
        total_memory: size_in_mb(total_memory),
        used_memory: size_in_mb(used_memory),
        total_swap: size_in_mb(total_swap),
        used_swap: size_in_mb(used_swap),
    }
}

/// Free and total memory, in bytes.
#[derive(Debug, Clone, Copy, PartialEq, Eq)]
pub struct MemoryResponse {
    pub free_memory: u64,
    pub total_memory: u64,
}

} // verus!
