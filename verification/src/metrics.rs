//! The metrics that are reported.
use crate::histogram::{no_counts, MetricHistogram};
use crate::temperature::TempMetrics;
use vstd::prelude::*;

verus! {

/// Memory in bytes.
#[derive(Debug, Clone, Copy, PartialEq, Eq, Structural)]
pub struct MemMetrics {
    pub ram_total: u64,
    pub ram_usage: u64,
    pub swap_total: u64,
    pub swap_usage: u64,
}

impl Default for MemMetrics {
    fn default() -> (r: MemMetrics)
        ensures
            r == (MemMetrics { ram_total: 0, ram_usage: 0, swap_total: 0, swap_usage: 0 }),
    {
        MemMetrics { ram_total: 0, ram_usage: 0, swap_total: 0, swap_usage: 0 }
    }
}

/// The metrics of the machine over some span of time.
#[derive(Debug)]
pub struct Metrics<F> {
    pub temp: TempMetrics<F>,
    pub memory: MemMetrics,
    /// Frequency of the efficiency cores, and the part of the highest one that they used.
    pub ecpu_usage: (u32, F),
    /// Frequency of the performance cores, and the part of the highest one that they used.
    pub pcpu_usage: (u32, F),
    /// Frequency of the graphics unit, and the part of the highest one that it used.
    pub gpu_usage: (u32, F),
    /// Power of the processor in watts.
    pub cpu_power: F,
    /// Power of the graphics unit in watts.
    pub gpu_power: F,
    /// Power of the neural engine in watts.
    pub ane_power: F,
    /// Power of these three in watts.
    pub all_power: F,
    /// Power of the whole system in watts.
    pub sys_power: F,
    /// What the neural engine reads, in bytes per second.
    pub ane_rd_bw: u64,
    /// What the neural engine writes, in bytes per second.
    pub ane_wr_bw: u64,
    /// What the rest of the system reads, in bytes per second.
    pub sys_rd_bw: u64,
    /// What the rest of the system writes, in bytes per second.
    pub sys_wr_bw: u64,
    /// How often each range of the neural engine's bandwidth was seen.
    pub ane_bw_hist: MetricHistogram,
}

/// `x` is the zero of its type.
pub open spec fn is_zero<F: Default>(x: F) -> bool {
    call_ensures(F::default, (), x)
}

impl<F: Default> Default for Metrics<F> {
    /// The metrics of a machine that does nothing.
    fn default() -> (r: Metrics<F>)
        ensures
            is_zero(r.temp.cpu_temp_avg) && is_zero(r.temp.gpu_temp_avg),
            r.memory == (MemMetrics { ram_total: 0, ram_usage: 0, swap_total: 0, swap_usage: 0 }),
            r.ecpu_usage.0 == 0 && is_zero(r.ecpu_usage.1),
            r.pcpu_usage.0 == 0 && is_zero(r.pcpu_usage.1),
            r.gpu_usage.0 == 0 && is_zero(r.gpu_usage.1),
            is_zero(r.cpu_power) && is_zero(r.gpu_power) && is_zero(r.ane_power),
            is_zero(r.all_power) && is_zero(r.sys_power),
            r.ane_rd_bw == 0 && r.ane_wr_bw == 0 && r.sys_rd_bw == 0 && r.sys_wr_bw == 0,
            r.ane_bw_hist.wf() && r.ane_bw_hist@ == no_counts(),
    {
        Metrics {
            temp: Default::default(),
            memory: Default::default(),
            ecpu_usage: (0, Default::default()),
            pcpu_usage: (0, Default::default()),
            gpu_usage: (0, Default::default()),
            cpu_power: Default::default(),
            gpu_power: Default::default(),
            ane_power: Default::default(),
            all_power: Default::default(),
            sys_power: Default::default(),
            ane_rd_bw: 0,
            ane_wr_bw: 0,
            sys_rd_bw: 0,
            sys_wr_bw: 0,
            ane_bw_hist: Default::default(),
        }
    }
}

/// The metrics of a machine that does nothing are zero throughout.
pub proof fn doing_nothing_is_zero<F: Default>(m: Metrics<F>, memory: MemMetrics)
    requires
        call_ensures(<Metrics<F> as Default>::default, (), m),
        call_ensures(<MemMetrics as Default>::default, (), memory),
    ensures
        m.memory == memory,
        memory.ram_total == 0 && memory.ram_usage == 0,
        memory.swap_total == 0 && memory.swap_usage == 0,
        m.ecpu_usage.0 == 0 && m.pcpu_usage.0 == 0 && m.gpu_usage.0 == 0,
        m.ane_rd_bw == 0 && m.ane_wr_bw == 0 && m.sys_rd_bw == 0 && m.sys_wr_bw == 0,
        m.ane_bw_hist.labels@.len() == 0 && m.ane_bw_hist.values@.len() == 0,
        call_ensures(F::default, (), m.temp.cpu_temp_avg),
        call_ensures(F::default, (), m.temp.gpu_temp_avg),
        call_ensures(F::default, (), m.ecpu_usage.1),
        call_ensures(F::default, (), m.pcpu_usage.1),
        call_ensures(F::default, (), m.gpu_usage.1),
        call_ensures(F::default, (), m.cpu_power),
        call_ensures(F::default, (), m.gpu_power),
        call_ensures(F::default, (), m.ane_power),
        call_ensures(F::default, (), m.all_power),
        call_ensures(F::default, (), m.sys_power),
{
    assert(m.ane_bw_hist@.values.len() == m.ane_bw_hist.values@.len());
}

} // verus!
