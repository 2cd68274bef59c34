//! Processors as Passmark lists them: rows of text, each turned into a
//! processor or left out.

use vstd::prelude::*;
use crate::common::{dollars, parse_dollars, without_commas, IgnoreComma};
use crate::decimal::{parse_u32, u32_of};
use crate::schemas::computing::{CPUBenchmark, CPUBenchmarkMetric, CPUView, CPU};
use crate::schemas::money::{Currency, Price, PriceView};

verus! {

/// One row of the list, every field as the text that the site sends.
#[derive(Debug)]
pub struct RawCPUBenchmark {
    pub id: String,
    pub name: String,
    pub price: String,
    pub cpumark: String,
    pub thread: String,
    pub socket: String,
    pub cat: String,
    pub cores: String,
    pub logicals: String,
    pub tdp: String,
}

/// The list as the site sends it.
#[derive(Debug)]
pub struct RawCPUBenchmarkJSONContainer {
    pub data: Vec<RawCPUBenchmark>,
}

/// Why a row gives no processor.
#[derive(Clone, Copy, Debug, PartialEq, Eq, Structural)]
pub enum RowError {
    /// The identifier of the row is no number.
    BadId,
}

/// The number that a field spells once its commas are taken out.
pub open spec fn number_in(field: Seq<char>) -> Option<u32> {
    u32_of(without_commas(field))
}

/// The price that a field names: its amount in dollars, cut to cents.
pub open spec fn price_in(field: Seq<char>) -> Option<PriceView> {
    match dollars(field) {
        Some(d) => Some(PriceView { unit: Currency::USD, amount: d.in_cents() }),
        None => None,
    }
}

/// The benchmarks that a row holds: that of Passmark where the overall
/// score is a number, none else.
pub open spec fn benchmarks_in(cpumark: Seq<char>, thread: Seq<char>) -> Seq<
    (CPUBenchmarkMetric, CPUBenchmark),
> {
    match number_in(cpumark) {
        Some(overall) => seq![
            (CPUBenchmarkMetric::Passmark, CPUBenchmark { overall, thread: number_in(thread) }),
        ],
        None => Seq::empty(),
    }
}

/// The processor that a row describes. The identifier must be a number;
/// any other field that cannot be read is left out.
pub open spec fn cpu_of(raw: RawCPUBenchmark) -> Result<CPUView, RowError> {
    match u32_of(raw.id@) {
        None => Err(RowError::BadId),
        Some(id) => Ok(
            CPUView {
                passmark_id: Some(id),
                name: raw.name@,
                benchmarks: benchmarks_in(raw.cpumark@, raw.thread@),
                socket: Some(raw.socket@),
                sector: Some(raw.cat@),
                cores: number_in(raw.cores@),
                logicals: number_in(raw.logicals@),
                price: price_in(raw.price@),
                tdp: number_in(raw.tdp@),
            },
        ),
    }
}

pub open spec fn cpu_view(r: Result<CPU, RowError>) -> Result<CPUView, RowError> {
    match r {
        Ok(c) => Ok(c@),
        Err(e) => Err(e),
    }
}

/// The processors that these rows describe, in the order of the rows; a
/// row that describes none is left out.
pub open spec fn cpus_of(rows: Seq<RawCPUBenchmark>) -> Seq<CPUView>
    decreases rows.len(),
{
    if rows.len() == 0 {
        Seq::empty()
    } else {
        match cpu_of(rows.last()) {
            Ok(c) => cpus_of(rows.drop_last()).push(c),
            Err(_) => cpus_of(rows.drop_last()),
        }
    }
}

pub open spec fn cpu_views(cpus: Seq<CPU>) -> Seq<CPUView> {
    cpus.map_values(|c: CPU| c@)
}

/// The number that a field spells once its commas are taken out.
pub fn number(field: &str) -> (r: Option<u32>)
    ensures
        r == number_in(field@),
{
    parse_u32(IgnoreComma::strip(field).as_str())
}

impl RawCPUBenchmark {
    /// The processor that the row describes.
    pub fn try_into(self) -> (r: Result<CPU, RowError>)
        ensures
            cpu_view(r) == cpu_of(self),
            r matches Ok(c) ==> c@.wf(),
    {
        let id = match parse_u32(self.id.as_str()) {
            Some(id) => id,
            None => {
                return Err(RowError::BadId);
            },
        };
        let mut benchmarks: Vec<(CPUBenchmarkMetric, CPUBenchmark)> = Vec::new();
        match number(self.cpumark.as_str()) {
            Some(overall) => {
                let thread = number(self.thread.as_str());
                benchmarks.push((CPUBenchmarkMetric::Passmark, CPUBenchmark { overall, thread }));
            },
            None => {},
        }
        assert(benchmarks@ =~= benchmarks_in(self.cpumark@, self.thread@));
        let cores = number(self.cores.as_str());
        let logicals = number(self.logicals.as_str());
        let tdp = number(self.tdp.as_str());
        let price = match parse_dollars(self.price.as_str()) {
            Some(a) => Some(Price { unit: Currency::USD, amount: a.in_cents() }),
            None => None,
        };
        Ok(
            CPU {
                passmark_id: Some(id),
                name: self.name,
                benchmarks,
                socket: Some(self.socket),
                sector: Some(self.cat),
                cores,
                logicals,
                price,
                tdp,
            },
        )
    }
}

impl RawCPUBenchmarkJSONContainer {
    /// The processors of the list.
    pub fn into_cpus(self) -> (cpus: Vec<CPU>)
        ensures
            cpu_views(cpus@) == cpus_of(self.data@),
    {
        let mut rows = self.data;
        let ghost all = rows@;
        let mut reversed: Vec<CPU> = Vec::new();
        while rows.len() > 0
            invariant
                rows@.len() <= all.len(),
                rows@ == all.take(rows@.len() as int),
                cpus_of(all) == cpus_of(rows@) + cpu_views(reversed@).reverse(),
            decreases rows.len(),
        {
            let ghost before = rows@;
            let ghost done = cpu_views(reversed@);
            let row = rows.pop().unwrap();
            assert(rows@ == before.drop_last());
            assert(row == before.last());
            match row.try_into() {
                Ok(cpu) => {
                    reversed.push(cpu);
                    assert(cpu_views(reversed@) =~= done.push(cpu@));
                    assert(cpus_of(before) + done.reverse() =~= cpus_of(rows@) + done.push(
                        cpu@,
                    ).reverse());
                },
                Err(_) => {},
            }
        }
        assert(cpus_of(rows@) =~= Seq::<CPUView>::empty());
        let mut cpus: Vec<CPU> = Vec::new();
        let ghost turned = cpu_views(reversed@);
        while reversed.len() > 0
            invariant
                reversed@.len() <= turned.len(),
                cpu_views(reversed@) == turned.take(reversed@.len() as int),
                cpu_views(cpus@) == turned.skip(reversed@.len() as int).reverse(),
            decreases reversed.len(),
        {
            let ghost before = cpu_views(cpus@);
            let ghost left = cpu_views(reversed@);
            let cpu = reversed.pop().unwrap();
            assert(cpu@ == left.last());
            cpus.push(cpu);
            assert(cpu_views(cpus@) =~= before.push(cpu@));
            assert(cpu_views(reversed@) =~= turned.take(reversed@.len() as int));
            assert(cpu_views(cpus@) =~= turned.skip(reversed@.len() as int).reverse());
        }
        assert(cpu_views(cpus@) =~= turned.reverse());
        cpus
    }
}

/// What to fetch from the site.
#[derive(Clone, Copy, Debug, PartialEq, Eq, Structural)]
pub enum Fetch {
    /// The page that sets the session cookie.
    SessionPage,
    /// The list, asked for as a script of the page would ask for it.
    Data,
}

/// The list of processors of Passmark, before or after the session was
/// opened.
#[derive(Debug)]
pub struct PassmarkCPUDataSource {
    pub initialized: bool,
}

impl PassmarkCPUDataSource {
    pub fn new() -> (r: PassmarkCPUDataSource)
        ensures
            !r.initialized,
    {
        PassmarkCPUDataSource { initialized: false }
    }

    /// What to fetch, in this order, to have the list: the page that sets
    /// the session cookie once, before the first list, and the list.
    pub fn produce(&mut self) -> (plan: Vec<Fetch>)
        ensures
            final(self).initialized,
            plan@ == if old(self).initialized {
                seq![Fetch::Data]
            } else {
                seq![Fetch::SessionPage, Fetch::Data]
            },
    {
        let mut plan: Vec<Fetch> = Vec::new();
        if !self.initialized {
            plan.push(Fetch::SessionPage);
            self.initialized = true;
        }
        plan.push(Fetch::Data);
        plan
    }
}

} // verus!
