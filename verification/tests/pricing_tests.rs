use usage_core::model::TokenUsage;
use usage_core::pricing::{Charge, FastPrice, ModelPrice, PricingTable, Rate};
use usage_core::product;

fn model(name: &str) -> String {
    format!("{}-{name}", product::name())
}

fn price(input: f64, output: f64, w5: f64, w1: f64, read: f64) -> ModelPrice<f64> {
    ModelPrice { input, output, cache_write_5m: w5, cache_write_1h: w1, cache_read: read }
}

fn table() -> PricingTable<f64> {
    let mut t = PricingTable::new("https://example.org".into(), "today".into(), "USD".into());
    t.models.insert(model("fable-5-1"), price(10.0, 50.0, 12.5, 20.0, 0.25));
    t.models.insert(model("fable-5"), price(10.0, 50.0, 12.5, 20.0, 1.0));
    t.models.insert(model("opus-5"), price(5.0, 25.0, 6.25, 10.0, 0.5));
    t.models.insert(model("sonnet-5"), price(2.0, 10.0, 2.5, 4.0, 0.2));
    t.fast_mode.insert(model("opus-5"), FastPrice { input: 10.0, output: 50.0 });
    t
}

fn usd(c: Charge<f64>) -> f64 {
    let p = match c.rate {
        Rate::Standard(p) => p,
        Rate::Fast(f) => price(f.input, f.output, f.input * 1.25, f.input * 2.0, f.input * 0.1),
    };
    let t = c.tokens;
    (t.input as f64 * p.input
        + t.output as f64 * p.output
        + t.write_5m as f64 * p.cache_write_5m
        + t.write_1h as f64 * p.cache_write_1h
        + t.cache_read as f64 * p.cache_read)
        / 1_000_000.0
}

fn cost(name: &str, u: &TokenUsage, fast: bool) -> f64 {
    usd(table().cost(&model(name), u, fast).unwrap())
}

fn approx(a: f64, b: f64) {
    assert!((a - b).abs() < 1e-9, "{a} != {b}");
}

#[test]
fn normalize_strips_date_and_context_suffix() {
    assert_eq!(PricingTable::<f64>::normalize(&model("haiku-4-5-20251001")), model("haiku-4-5"));
    assert_eq!(PricingTable::<f64>::normalize(&model("opus-5[1m]")), model("opus-5"));
    assert_eq!(PricingTable::<f64>::normalize(&model("opus-4-8")), model("opus-4-8"));
}

#[test]
fn normalize_takes_off_one_suffix_of_each_kind() {
    let n = PricingTable::<u8>::normalize;
    assert_eq!(n("  a-20251001[1m]\u{a0}\n"), "a");
    assert_eq!(n("a[1m]-20251001"), "a[1m]");
    assert_eq!(n("a-20251001-20251002"), "a-20251001");
    assert_eq!(n("a-2025100"), "a-2025100");
    assert_eq!(n("a-202510011"), "a-202510011");
    assert_eq!(n("a-2025100x"), "a-2025100x");
    assert_eq!(n("-20251001"), "");
    assert_eq!(n("20251001"), "20251001");
    assert_eq!(n("[1m]"), "");
    assert_eq!(n("1m]"), "1m]");
    assert_eq!(n(""), "");
    assert_eq!(n("ü-é"), "ü-é");
}

#[test]
fn cache_read_rates() {
    let u = TokenUsage { cache_read: 1_000_000, ..Default::default() };
    approx(cost("opus-5", &u, false), 0.50);
    approx(cost("fable-5-1", &u, false), 0.25);
    approx(cost("fable-5", &u, false), 1.00);
}

#[test]
fn cache_write_ttl_rates() {
    let u1h = TokenUsage { cache_creation: 1_000_000, cache_creation_1h: 1_000_000, ..Default::default() };
    approx(cost("opus-5", &u1h, false), 10.0);
    let u5m = TokenUsage { cache_creation: 1_000_000, cache_creation_5m: 1_000_000, ..Default::default() };
    approx(cost("opus-5", &u5m, false), 6.25);
    // No breakdown → priced at the 5m rate.
    let ubare = TokenUsage { cache_creation: 1_000_000, ..Default::default() };
    approx(cost("opus-5", &ubare, false), 6.25);
}

#[test]
fn fast_mode_uses_premium_base() {
    let u = TokenUsage { input: 1_000_000, output: 1_000_000, ..Default::default() };
    approx(cost("opus-5", &u, true), 60.0);
    approx(cost("opus-5", &u, false), 30.0);
    // Model without a fast-mode row falls back to standard pricing.
    approx(cost("sonnet-5", &u, true), 12.0);
}

#[test]
fn unknown_model_is_none() {
    assert!(table().cost(&model("unicorn-9"), &TokenUsage::default(), false).is_none());
    assert!(table().cost(&model("unicorn-9"), &TokenUsage::default(), true).is_none());
}

#[test]
fn lookup_goes_by_the_normalized_name() {
    let t = table();
    assert_eq!(t.lookup(&model("opus-5-20251001")).unwrap().input, 5.0);
    assert!(t.lookup(&model("opus-6")).is_none());
    assert_eq!(t.source, "https://example.org");
}

#[test]
fn part_of_a_cache_write_without_a_breakdown() {
    let t = table();
    let u = TokenUsage {
        cache_creation: 1000,
        cache_creation_5m: 100,
        cache_creation_1h: 300,
        ..Default::default()
    };
    let c = t.cost(&model("opus-5"), &u, false).unwrap();
    assert_eq!((c.tokens.write_5m, c.tokens.write_1h), (700, 300));
    // A breakdown of more than the total stands as it is.
    let u = TokenUsage { cache_creation: 10, ..u };
    let c = t.cost(&model("opus-5"), &u, false).unwrap();
    assert_eq!((c.tokens.write_5m, c.tokens.write_1h), (100, 300));
}
