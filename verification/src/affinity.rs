//! Which CPUs threads run on.

use nix::errno::Errno;
use nix::sched::{sched_getaffinity, CpuSet};
use nix::unistd::Pid;
use vstd::prelude::*;

use crate::text::push_decimal;

verus! {

/// How many CPUs a CPU set has room for: the bits of Linux's 128-byte `cpu_set_t`.
pub const CPU_SLOTS: usize = 1024;

#[verifier::external_type_specification]
#[verifier::external_body]
pub struct ExCpuSet(nix::sched::CpuSet);

/// The CPUs that a CPU set holds.
pub uninterp spec fn cpus_in(set: CpuSet) -> Set<usize>;

/// `nix::sched::CpuSet::count`: the room of a CPU set.
#[verifier::external_body]
fn cpu_slots() -> (slots: usize)
    ensures
        slots == CPU_SLOTS,
{
    CpuSet::count()
}

/// `nix::sched::CpuSet::new`: no CPU is in the set.
#[verifier::external_body]
fn empty_cpu_set() -> (set: CpuSet)
    ensures
        cpus_in(set) == Set::<usize>::empty(),
{
    CpuSet::new()
}

/// `nix::sched::CpuSet::is_set`: whether the set holds a CPU, which is an error for
/// a CPU that it has no room for.
#[verifier::external_body]
fn holds_cpu(set: &CpuSet, cpu: usize) -> (held: Result<bool, Errno>)
    ensures
        held is Ok <==> cpu < CPU_SLOTS,
        held matches Ok(yes) ==> (yes <==> cpus_in(*set).contains(cpu)),
{
    set.is_set(cpu)
}

/// `nix::sched::CpuSet::set`: adds a CPU, which is an error for a CPU that the set
/// has no room for.
#[verifier::external_body]
fn insert_cpu(set: &mut CpuSet, cpu: usize) -> (added: Result<(), Errno>)
    ensures
        added is Ok <==> cpu < CPU_SLOTS,
        added is Ok ==> cpus_in(*final(set)) == cpus_in(*old(set)).insert(cpu),
        added is Err ==> cpus_in(*final(set)) == cpus_in(*old(set)),
{
    set.set(cpu)
}

/// `nix::sched::sched_getaffinity` of the calling thread. Which CPUs come back
/// depends on the machine; none is beyond the room of the set.
#[verifier::external_body]
fn allowed_cpus() -> (allowed: Result<CpuSet, Errno>)
    ensures
        allowed matches Ok(set) ==> forall|cpu: usize| #[trigger]
            cpus_in(set).contains(cpu) ==> cpu < CPU_SLOTS,
{
    sched_getaffinity(Pid::from_raw(0))
}

/// Why no CPU was selected.
#[derive(Clone, Copy, Debug)]
pub enum CpuError {
    /// The affinity mask could not be read.
    Os(Errno),
    /// The requested CPU is not allowed.
    Outside(usize),
    /// No CPU is allowed.
    NoneAllowed,
}

impl CpuError {
    /// What to tell the user, where the library decided.
    pub open spec fn text(self) -> Option<Seq<char>> {
        match self {
            CpuError::Os(_) => None,
            CpuError::Outside(cpu) => Some(
                "CPU "@ + crate::text::decimal(cpu as nat)
                    + " is outside this process's allowed affinity mask"@,
            ),
            CpuError::NoneAllowed => Some("the process has no allowed CPUs"@),
        }
    }

    /// What to tell the user, unless the system has its own words for it.
    pub fn message(&self) -> (text: Option<String>)
        ensures
            text is Some <==> self.text() is Some,
            text matches Some(s) ==> s@ == self.text()->0,
            text is None <==> self is Os,
            self matches CpuError::Outside(cpu) ==> text->0@ == "CPU "@ + crate::text::decimal(
                *cpu as nat,
            ) + " is outside this process's allowed affinity mask"@,
            self is NoneAllowed ==> text->0@ == "the process has no allowed CPUs"@,
    {
        match self {
            CpuError::Os(_) => None,
            CpuError::Outside(cpu) => {
                let mut s = "CPU ".to_owned();
                push_decimal(&mut s, *cpu as u128);
                s.append(" is outside this process's allowed affinity mask");
                Some(s)
            },
            CpuError::NoneAllowed => Some("the process has no allowed CPUs".to_owned()),
        }
    }
}

/// Whether `cpu` is the lowest CPU of `set` that a set has room for and that is not
/// `except`.
pub open spec fn is_first_cpu(set: Set<usize>, except: Option<usize>, cpu: usize) -> bool {
    &&& cpu < CPU_SLOTS
    &&& set.contains(cpu)
    &&& Some(cpu) != except
    &&& forall|lower: usize| lower < cpu && Some(lower) != except ==> !set.contains(lower)
}

/// The first CPU is one that may be used, and no CPU that may be used is lower.
pub proof fn the_first_cpu_is_the_lowest(
    set: Set<usize>,
    except: Option<usize>,
    cpu: usize,
    other: usize,
)
    requires
        is_first_cpu(set, except, cpu),
    ensures
        set.contains(cpu),
        cpu < 1024,
        except != Some(cpu),
        set.contains(other) && except != Some(other) ==> cpu <= other,
{
}

/// The lowest allowed CPU that is not `except`.
pub fn first_cpu(allowed: &CpuSet, except: Option<usize>) -> (first: Option<usize>)
    ensures
        first matches Some(cpu) ==> is_first_cpu(cpus_in(*allowed), except, cpu),
        first is None ==> forall|cpu: usize|
            cpu < CPU_SLOTS && Some(cpu) != except ==> !cpus_in(*allowed).contains(cpu),
{
    let slots: usize = cpu_slots();
    let mut cpu: usize = 0;
    while cpu < slots
        invariant
            slots == CPU_SLOTS,
            cpu <= slots,
            forall|lower: usize|
                lower < cpu && Some(lower) != except ==> !cpus_in(*allowed).contains(lower),
        decreases slots - cpu,
    {
        let excepted: bool = match except {
            Some(e) => e == cpu,
            None => false,
        };
        if !excepted {
            match holds_cpu(allowed, cpu) {
                Ok(true) => {
                    return Some(cpu);
                },
                _ => {},
            }
        }
        cpu = cpu + 1;
    }
    None
}

/// The CPU for the workload: the requested one if it is allowed, and the lowest
/// allowed one where none is requested.
pub fn select_from(allowed: &CpuSet, requested: Option<usize>) -> (selected: Result<
    usize,
    CpuError,
>)
    ensures
        requested matches Some(cpu) ==> if cpu < CPU_SLOTS && cpus_in(*allowed).contains(cpu) {
            selected == Ok::<usize, CpuError>(cpu)
        } else {
            selected == Err::<usize, CpuError>(CpuError::Outside(cpu))
        },
        requested is None ==> match selected {
            Ok(cpu) => is_first_cpu(cpus_in(*allowed), None, cpu),
            Err(e) => {
                &&& e is NoneAllowed
                &&& forall|cpu: usize| cpu < CPU_SLOTS ==> !cpus_in(*allowed).contains(cpu)
            },
        },
{
    match requested {
        Some(cpu) => match holds_cpu(allowed, cpu) {
            Ok(true) => Ok(cpu),
            _ => Err(CpuError::Outside(cpu)),
        },
        None => match first_cpu(allowed, None) {
            Some(cpu) => Ok(cpu),
            None => Err(CpuError::NoneAllowed),
        },
    }
}

/// The CPU for the workload: [`select_from`] of an affinity mask, or why the mask could
/// not be read.
pub fn select_among(allowed: Result<CpuSet, Errno>, requested: Option<usize>) -> (selected: Result<
    usize,
    CpuError,
>)
    ensures
        match allowed {
            Ok(set) => match requested {
                Some(cpu) => if cpu < CPU_SLOTS && cpus_in(set).contains(cpu) {
                    selected == Ok::<usize, CpuError>(cpu)
                } else {
                    selected == Err::<usize, CpuError>(CpuError::Outside(cpu))
                },
                None => match selected {
                    Ok(cpu) => is_first_cpu(cpus_in(set), None, cpu),
                    Err(e) => {
                        &&& e is NoneAllowed
                        &&& forall|cpu: usize| cpu < CPU_SLOTS ==> !cpus_in(set).contains(cpu)
                    },
                },
            },
            Err(error) => selected == Err::<usize, CpuError>(CpuError::Os(error)),
        },
{
    match allowed {
        Ok(set) => select_from(&set, requested),
        Err(error) => Err(CpuError::Os(error)),
    }
}

/// The CPU for the workload among those that this thread may run on: [`select_among`]
/// of its affinity mask, which depends on the machine.
pub fn select_cpu(requested: Option<usize>) -> (selected: Result<usize, CpuError>)
    ensures
        selected matches Ok(cpu) ==> cpu < CPU_SLOTS && (requested is Some ==> requested == Some(
            cpu,
        )),
        selected matches Err(CpuError::Outside(cpu)) ==> requested == Some(cpu),
        selected matches Err(CpuError::NoneAllowed) ==> requested is None,
        requested matches Some(cpu) && cpu >= CPU_SLOTS ==> selected is Err,
{
    select_among(allowed_cpus(), requested)
}

/// The CPU to draw on, away from the workload: [`away_among`] of the affinity mask of
/// this thread, which depends on the machine.
pub fn cpu_away_from(workload_cpu: usize) -> (away: Result<Option<usize>, Errno>)
    ensures
        away matches Ok(Some(cpu)) ==> cpu != workload_cpu && cpu < CPU_SLOTS,
{
    away_among(allowed_cpus(), workload_cpu)
}

/// The lowest CPU of an affinity mask that is not the workload's, if there is one,
/// or why the mask could not be read.
pub fn away_among(allowed: Result<CpuSet, Errno>, workload_cpu: usize) -> (away: Result<
    Option<usize>,
    Errno,
>)
    ensures
        match allowed {
            Ok(set) => match away {
                Ok(Some(cpu)) => is_first_cpu(cpus_in(set), Some(workload_cpu), cpu),
                Ok(None) => forall|cpu: usize|
                    cpu < CPU_SLOTS && cpu != workload_cpu ==> !cpus_in(set).contains(cpu),
                Err(_) => false,
            },
            Err(error) => away == Err::<Option<usize>, Errno>(error),
        },
{
    match allowed {
        Ok(set) => Ok(first_cpu(&set, Some(workload_cpu))),
        Err(error) => Err(error),
    }
}

/// The mask that pins a thread to one CPU.
pub fn single_cpu(cpu: usize) -> (mask: Result<CpuSet, Errno>)
    ensures
        mask is Ok <==> cpu < CPU_SLOTS,
        mask matches Ok(set) ==> cpus_in(set) == set![cpu],
{
    let mut set = empty_cpu_set();
    match insert_cpu(&mut set, cpu) {
        Ok(()) => {
            assert(cpus_in(set) =~= set![cpu]);
            Ok(set)
        },
        Err(error) => Err(error),
    }
}

} // verus!
