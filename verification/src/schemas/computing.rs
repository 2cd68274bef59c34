//! Processors and their benchmarks.

use vstd::prelude::*;
use crate::schemas::money::{Price, PriceView};

verus! {

/// Who measured.
#[derive(Clone, Copy, Debug, PartialEq, Eq, Hash, Structural)]
pub enum CPUBenchmarkMetric {
    Passmark,
}

/// The scores of one benchmark.
#[derive(Clone, Copy, Debug, PartialEq, Eq, Hash, Structural)]
pub struct CPUBenchmark {
    pub overall: u32,
    pub thread: Option<u32>,
}

impl Default for CPUBenchmark {
    fn default() -> (r: CPUBenchmark)
        ensures
            r == (CPUBenchmark { overall: 0, thread: None }),
    {
        CPUBenchmark { overall: 0, thread: None }
    }
}

/// A processor.
#[derive(Debug)]
pub struct CPU {
    pub passmark_id: Option<u32>,
    pub name: String,
    /// The benchmarks of the processor, at most one for each metric.
    pub benchmarks: Vec<(CPUBenchmarkMetric, CPUBenchmark)>,
    pub socket: Option<String>,
    pub sector: Option<String>,
    pub cores: Option<u32>,
    pub logicals: Option<u32>,
    pub price: Option<Price>,
    pub tdp: Option<u32>,
}

pub struct CPUView {
    pub passmark_id: Option<u32>,
    pub name: Seq<char>,
    pub benchmarks: Seq<(CPUBenchmarkMetric, CPUBenchmark)>,
    pub socket: Option<Seq<char>>,
    pub sector: Option<Seq<char>>,
    pub cores: Option<u32>,
    pub logicals: Option<u32>,
    pub price: Option<PriceView>,
    pub tdp: Option<u32>,
}

impl View for CPU {
    type V = CPUView;

    open spec fn view(&self) -> CPUView {
        CPUView {
            passmark_id: self.passmark_id,
            name: self.name@,
            benchmarks: self.benchmarks@,
            socket: match self.socket {
                Some(s) => Some(s@),
                None => None,
            },
            sector: match self.sector {
                Some(s) => Some(s@),
                None => None,
            },
            cores: self.cores,
            logicals: self.logicals,
            price: match self.price {
                Some(p) => Some(p@),
                None => None,
            },
            tdp: self.tdp,
        }
    }
}

impl CPUView {
    /// No metric has two benchmarks.
    pub open spec fn wf(self) -> bool {
        forall|i: int, j: int|
            0 <= i < j < self.benchmarks.len() ==> (#[trigger] self.benchmarks[i]).0 != (
            #[trigger] self.benchmarks[j]).0
    }
}

impl CPU {
    /// The benchmark of the processor for this metric.
    pub fn benchmark(&self, metric: CPUBenchmarkMetric) -> (r: Option<CPUBenchmark>)
        ensures
            match r {
                Some(b) => exists|i: int|
                    0 <= i < self@.benchmarks.len() && self@.benchmarks[i] == (metric, b),
                None => forall|i: int|
                    0 <= i < self@.benchmarks.len() ==> (#[trigger] self@.benchmarks[i]).0
                        != metric,
            },
    {
        let mut i: usize = 0;
        while i < self.benchmarks.len()
            invariant
                i <= self.benchmarks.len(),
                forall|k: int| 0 <= k < i ==> (#[trigger] self@.benchmarks[k]).0 != metric,
            decreases self.benchmarks.len() - i,
        {
            let (m, b) = self.benchmarks[i];
            if m == metric {
                assert(self@.benchmarks[i as int] == (metric, b));
                return Some(b);
            }
            i += 1;
        }
        None
    }
}

impl Default for CPU {
    fn default() -> (r: CPU)
        ensures
            r@.name.len() == 0,
            r@.benchmarks.len() == 0,
            r@.passmark_id is None,
            r@.socket is None,
            r@.sector is None,
            r@.cores is None,
            r@.logicals is None,
            r@.price is None,
            r@.tdp is None,
    {
        CPU {
            passmark_id: None,
            name: String::new(),
            benchmarks: Vec::new(),
            socket: None,
            sector: None,
            cores: None,
            logicals: None,
            price: None,
            tdp: None,
        }
    }
}

} // verus!
