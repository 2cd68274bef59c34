use datacollect::modules::passmark::{
    number, Fetch, PassmarkCPUDataSource, RawCPUBenchmark, RawCPUBenchmarkJSONContainer, RowError,
};
use datacollect::schemas::computing::{CPUBenchmark, CPUBenchmarkMetric, CPU};
use datacollect::schemas::money::Currency;

fn row(id: &str, name: &str) -> RawCPUBenchmark {
    RawCPUBenchmark {
        id: id.to_string(),
        name: name.to_string(),
        price: "$199.99*".to_string(),
        cpumark: "13,221".to_string(),
        thread: "2,253".to_string(),
        socket: "AM4".to_string(),
        cat: "Desktop".to_string(),
        cores: "6".to_string(),
        logicals: "2".to_string(),
        tdp: "65".to_string(),
    }
}

#[test]
fn row_to_processor() {
    let cpu = row("3243", "AMD Ryzen 5 2600").try_into().unwrap();
    assert_eq!(cpu.passmark_id, Some(3243));
    assert_eq!(cpu.name, "AMD Ryzen 5 2600");
    assert_eq!(
        cpu.benchmarks,
        vec![(CPUBenchmarkMetric::Passmark, CPUBenchmark { overall: 13221, thread: Some(2253) })]
    );
    assert_eq!(
        cpu.benchmark(CPUBenchmarkMetric::Passmark),
        Some(CPUBenchmark { overall: 13221, thread: Some(2253) })
    );
    assert_eq!(cpu.socket.as_deref(), Some("AM4"));
    assert_eq!(cpu.sector.as_deref(), Some("Desktop"));
    assert_eq!(cpu.cores, Some(6));
    assert_eq!(cpu.logicals, Some(2));
    assert_eq!(cpu.tdp, Some(65));
    let price = cpu.price.unwrap();
    assert_eq!(price.unit, Currency::USD);
    assert_eq!(price.amount.to_text(), "199.99");
}

#[test]
fn fields_that_cannot_be_read_are_left_out() {
    let mut raw = row("7", "Mystery");
    raw.price = "NA".to_string();
    raw.cpumark = "NA".to_string();
    raw.cores = "".to_string();
    raw.logicals = "-1".to_string();
    raw.tdp = "65.5".to_string();
    let cpu = raw.try_into().unwrap();
    assert!(cpu.price.is_none());
    assert!(cpu.benchmarks.is_empty());
    assert_eq!(cpu.benchmark(CPUBenchmarkMetric::Passmark), None);
    assert_eq!(cpu.cores, None);
    assert_eq!(cpu.logicals, None);
    assert_eq!(cpu.tdp, None);

    let mut raw = row("8", "Threadless");
    raw.thread = "NA".to_string();
    raw.price = "1,234.5".to_string();
    let cpu = raw.try_into().unwrap();
    assert_eq!(
        cpu.benchmarks,
        vec![(CPUBenchmarkMetric::Passmark, CPUBenchmark { overall: 13221, thread: None })]
    );
    assert_eq!(cpu.price.unwrap().amount.to_text(), "1234.50");
}

#[test]
fn row_without_identifier() {
    assert_eq!(row("x12", "Broken").try_into().err(), Some(RowError::BadId));
    assert_eq!(row("", "Broken").try_into().err(), Some(RowError::BadId));
    assert_eq!(row("1,000", "Broken").try_into().err(), Some(RowError::BadId));
    assert_eq!(row("4294967296", "Broken").try_into().err(), Some(RowError::BadId));
    assert_eq!(row("4294967295", "Fine").try_into().unwrap().passmark_id, Some(u32::MAX));
}

#[test]
fn list_keeps_order_and_leaves_out_bad_rows() {
    let list = RawCPUBenchmarkJSONContainer {
        data: vec![row("1", "first"), row("bad", "second"), row("3", "third"), row("4", "fourth")],
    };
    let cpus = list.into_cpus();
    let names: Vec<&str> = cpus.iter().map(|c| c.name.as_str()).collect();
    assert_eq!(names, vec!["first", "third", "fourth"]);
    assert!(RawCPUBenchmarkJSONContainer { data: vec![] }.into_cpus().is_empty());
}

#[test]
fn numbers_with_commas() {
    assert_eq!(number("13,096"), Some(13096));
    assert_eq!(number("1,3,0,9,6"), Some(13096));
    assert_eq!(number("+5"), Some(5));
    assert_eq!(number("0"), Some(0));
    assert_eq!(number("007"), Some(7));
    assert_eq!(number(""), None);
    assert_eq!(number(","), None);
    assert_eq!(number("+"), None);
    assert_eq!(number("12.5"), None);
    assert_eq!(number(" 12"), None);
    assert_eq!(number("4,294,967,295"), Some(u32::MAX));
    assert_eq!(number("4,294,967,296"), None);
    assert_eq!(number("99999999999999999999999999"), None);
}

#[test]
fn session_page_is_fetched_once() {
    let mut source = PassmarkCPUDataSource::new();
    assert!(!source.initialized);
    assert_eq!(source.produce(), vec![Fetch::SessionPage, Fetch::Data]);
    assert!(source.initialized);
    assert_eq!(source.produce(), vec![Fetch::Data]);
    assert_eq!(source.produce(), vec![Fetch::Data]);
}

#[test]
fn default_processor_is_empty() {
    let cpu = CPU::default();
    assert!(cpu.name.is_empty());
    assert!(cpu.benchmarks.is_empty());
    assert!(cpu.passmark_id.is_none() && cpu.price.is_none() && cpu.tdp.is_none());
    assert_eq!(CPUBenchmark::default(), CPUBenchmark { overall: 0, thread: None });
}

#[test]
fn currency_code() {
    assert_eq!(datacollect::schemas::money::Currency::from_abbreviation("USD"), Some(datacollect::schemas::money::Currency::USD));
    assert_eq!(datacollect::schemas::money::Currency::from_abbreviation("usd"), Some(datacollect::schemas::money::Currency::USD));
    assert_eq!(datacollect::schemas::money::Currency::from_abbreviation("uSd"), Some(datacollect::schemas::money::Currency::USD));
    assert_eq!(datacollect::schemas::money::Currency::from_abbreviation("US"), None);
    assert_eq!(datacollect::schemas::money::Currency::from_abbreviation("$"), None);
    assert_eq!(datacollect::schemas::money::Currency::from_abbreviation(""), None);
    assert_eq!(datacollect::schemas::money::Currency::from_abbreviation("USDX"), None);
}
