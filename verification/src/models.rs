//! What the monitor shows: processes, groups of processes, devices and messages.

use crate::order::Ranked;
use crate::reading::{law_order_is_numeric, Reading};
use crate::text::{earlier_str, lemma_text_less, text_less};
use vstd::prelude::*;

verus! {

/// One process.
#[derive(Debug)]
pub struct ProcessStat {
    pub app: String,
    pub pid: String,
    pub name: String,
    pub mem_mib: u64,
    pub cpu: Reading,
}

impl Clone for ProcessStat {
    fn clone(&self) -> (r: Self)
        ensures
            r == *self,
    {
        ProcessStat {
            app: self.app.clone(),
            pid: self.pid.clone(),
            name: self.name.clone(),
            mem_mib: self.mem_mib,
            cpu: self.cpu,
        }
    }
}

/// Processes stand by their share of the processor, the largest first, then by their memory,
/// the largest first.
impl Ranked for ProcessStat {
    open spec fn before(self, other: Self) -> bool {
        ||| other.cpu.below(self.cpu)
        ||| !self.cpu.below(other.cpu) && other.mem_mib < self.mem_mib
    }

    open spec fn orderly(self) -> bool {
        !self.cpu.is_nan()
    }

    proof fn before_is_order(a: Self, b: Self, c: Self) {
    }

    fn is_before(&self, other: &Self) -> (r: bool) {
        other.cpu.less(self.cpu) || (!self.cpu.less(other.cpu) && other.mem_mib < self.mem_mib)
    }
}

/// The processes of one application.
#[derive(Debug)]
pub struct ProcessGroup {
    pub app: String,
    pub total_mem_mib: u64,
    pub total_cpu: Reading,
    pub stale: bool,
    pub processes: Vec<ProcessStat>,
}

/// Copies a list of processes.
pub fn clone_processes(list: &Vec<ProcessStat>) -> (r: Vec<ProcessStat>)
    ensures
        r@ == list@,
{
    let mut r: Vec<ProcessStat> = Vec::new();
    for i in 0..list.len()
        invariant
            r@ =~= list@.take(i as int),
    {
        r.push(list[i].clone());
    }
    r
}

/// What a group holds.
pub struct GroupView {
    pub app: Seq<char>,
    pub total_mem_mib: u64,
    pub total_cpu: Reading,
    pub stale: bool,
    pub processes: Seq<ProcessStat>,
}

impl View for ProcessGroup {
    type V = GroupView;

    open spec fn view(&self) -> GroupView {
        GroupView {
            app: self.app@,
            total_mem_mib: self.total_mem_mib,
            total_cpu: self.total_cpu,
            stale: self.stale,
            processes: self.processes@,
        }
    }
}

impl Clone for ProcessGroup {
    fn clone(&self) -> (r: Self)
        ensures
            r@ == self@,
            r.app == self.app,
    {
        ProcessGroup {
            app: self.app.clone(),
            total_mem_mib: self.total_mem_mib,
            total_cpu: self.total_cpu,
            stale: self.stale,
            processes: clone_processes(&self.processes),
        }
    }
}

/// Groups stand live ones first, then by their share of the processor and their memory, the
/// largest first, then by their name.
impl Ranked for ProcessGroup {
    open spec fn before(self, other: Self) -> bool {
        if self.stale != other.stale {
            other.stale
        } else if other.total_cpu.below(self.total_cpu) {
            true
        } else if self.total_cpu.below(other.total_cpu) {
            false
        } else if self.total_mem_mib != other.total_mem_mib {
            other.total_mem_mib < self.total_mem_mib
        } else {
            text_less(self.app@, other.app@)
        }
    }

    open spec fn orderly(self) -> bool {
        !self.total_cpu.is_nan()
    }

    proof fn before_is_order(a: Self, b: Self, c: Self) {
        lemma_text_less(a.app@, b.app@, c.app@);
    }

    fn is_before(&self, other: &Self) -> (r: bool) {
        if self.stale != other.stale {
            other.stale
        } else if other.total_cpu.less(self.total_cpu) {
            true
        } else if self.total_cpu.less(other.total_cpu) {
            false
        } else if self.total_mem_mib != other.total_mem_mib {
            other.total_mem_mib < self.total_mem_mib
        } else {
            earlier_str(self.app.as_str(), other.app.as_str())
        }
    }
}

/// What is known of the graphics card.
#[derive(Debug)]
pub struct GpuStats {
    pub name: String,
    pub usage_pct: Reading,
    pub temp_c: Reading,
    pub vram_used_mib: Reading,
    pub vram_total_mib: Reading,
}

/// The size of a file system and how much of it is in use.
#[derive(Debug, Clone, Copy)]
pub struct StorageStats {
    pub used_bytes: u64,
    pub total_bytes: u64,
}

/// The signals that the action menu can send.
#[derive(Debug, Clone, Copy, PartialEq, Eq, Structural)]
pub enum KillSignal {
    Term,
    Kill,
}

impl KillSignal {
    pub open spec fn arg_text(self) -> Seq<char> {
        match self {
            KillSignal::Term => "-TERM"@,
            KillSignal::Kill => "-KILL"@,
        }
    }

    pub open spec fn label_text(self) -> Seq<char> {
        match self {
            KillSignal::Term => "SIGTERM"@,
            KillSignal::Kill => "SIGKILL"@,
        }
    }

    /// The argument by which the `kill` command knows the signal.
    pub fn as_kill_arg(self) -> (r: &'static str)
        ensures
            r@ == self.arg_text(),
    {
        match self {
            KillSignal::Term => "-TERM",
            KillSignal::Kill => "-KILL",
        }
    }

    /// The name of the signal as messages give it.
    pub fn label(self) -> (r: &'static str)
        ensures
            r@ == self.label_text(),
    {
        match self {
            KillSignal::Term => "SIGTERM",
            KillSignal::Kill => "SIGKILL",
        }
    }
}

/// A message in the footer. Times are nanoseconds on a clock that never goes back.
#[derive(Debug)]
pub struct StatusMessage {
    pub text: String,
    pub is_error: bool,
    pub expires_at: u64,
}

/// A busier process comes first; of two that are equally busy, the one with more memory.
pub proof fn law_busier_process_first(a: ProcessStat, b: ProcessStat)
    requires
        !a.cpu.is_nan(),
        !b.cpu.is_nan(),
    ensures
        a.before(b) <==> a.cpu.value() > b.cpu.value() || (a.cpu.value() == b.cpu.value() && a.mem_mib > b.mem_mib),
{
    law_order_is_numeric(a.cpu, b.cpu);
    law_order_is_numeric(b.cpu, a.cpu);
}

/// A live group comes before a stale one, then a busier one first, then the one with more
/// memory, then the one whose name comes first.
pub proof fn law_busier_group_first(a: ProcessGroup, b: ProcessGroup)
    requires
        !a.total_cpu.is_nan(),
        !b.total_cpu.is_nan(),
    ensures
        !a.stale && b.stale ==> a.before(b) && !b.before(a),
        a.stale == b.stale && a.total_cpu.value() > b.total_cpu.value() ==> a.before(b) && !b.before(a),
        a.stale == b.stale && a.total_cpu.value() == b.total_cpu.value() && a.total_mem_mib > b.total_mem_mib
            ==> a.before(b) && !b.before(a),
        a.stale == b.stale && a.total_cpu.value() == b.total_cpu.value() && a.total_mem_mib == b.total_mem_mib
            ==> (a.before(b) <==> text_less(a.app@, b.app@)),
{
    law_order_is_numeric(a.total_cpu, b.total_cpu);
    law_order_is_numeric(b.total_cpu, a.total_cpu);
}

/// The two signals have the arguments and names that the system knows them by.
pub proof fn law_signals()
    ensures
        KillSignal::Term.arg_text() == "-TERM"@,
        KillSignal::Kill.arg_text() == "-KILL"@,
        KillSignal::Term.label_text() == "SIGTERM"@,
        KillSignal::Kill.label_text() == "SIGKILL"@,
{
}

} // verus!
