use metoks::config::PriceOverride;
use metoks::json::parse_json;
use metoks::models::Charge;
use metoks::number::Real;
use metoks::pricing::{
    first_step, next_step, parse_litellm, price_table, ModelPrice, PriceStep, Pricing, REFRESH_AFTER,
};

fn num(x: f64) -> Real {
    Real { bits: x.to_bits() }
}

fn price(i: f64, o: f64, r: f64, w: f64) -> ModelPrice {
    ModelPrice { input: num(i), output: num(o), cache_read: num(r), cache_write: num(w) }
}

const DATASET: &str = r#"{
  "sample_spec": {"input_cost_per_token": 9},
  "alpha": {"input_cost_per_token": 1e-6, "output_cost_per_token": 2e-6,
            "cache_read_input_token_cost": 3e-7, "cache_creation_input_token_cost": 4e-7},
  "beta": {"output_cost_per_token": 5},
  "gamma": "not an object",
  "delta": {"input_cost_per_token": "free"}
}"#;

fn pricing() -> Pricing {
    let o = PriceOverride { input: num(7.0), output: num(8.0), cache_read: num(0.0), cache_write: num(0.0) };
    Pricing::load(DATASET, &vec![("alpha".to_string(), o), ("x/beta".to_string(), o)])
}

#[test]
fn dataset_prices_its_objects() {
    let t = parse_litellm(DATASET);
    assert_eq!(t.len(), 3);
    assert_eq!(t.get("alpha").copied(), Some(price(1e-6, 2e-6, 3e-7, 4e-7)));
    assert_eq!(t.get("beta").copied(), Some(price(0.0, 5.0, 0.0, 0.0)));
    assert_eq!(t.get("delta").copied(), Some(price(0.0, 0.0, 0.0, 0.0)));
    assert!(t.get("gamma").is_none() && t.get("sample_spec").is_none());
    assert_eq!(parse_litellm("oops").len(), 0);
    assert_eq!(price_table(&parse_json("[1]").unwrap()).len(), 0);
}

#[test]
fn configured_prices_win() {
    let p = pricing();
    assert_eq!(p.len(), 3);
    assert_eq!(p.lookup("alpha"), Some(price(7.0, 8.0, 0.0, 0.0)));
    assert_eq!(p.lookup("x/beta"), Some(price(7.0, 8.0, 0.0, 0.0)));
}

#[test]
fn provider_is_stripped_once_and_nothing_is_guessed() {
    let p = pricing();
    assert_eq!(p.lookup("openrouter/beta"), Some(price(0.0, 5.0, 0.0, 0.0)));
    // Stripped names are looked up in the dataset alone.
    assert_eq!(p.lookup("vendor/alpha"), Some(price(1e-6, 2e-6, 3e-7, 4e-7)));
    assert_eq!(p.lookup("a/b/beta"), None);
    assert_eq!(p.lookup("beta-2"), None);
    assert_eq!(p.lookup("bet"), None);
    assert_eq!(p.lookup(""), None);
}

#[test]
fn reasoning_is_charged_as_output() {
    let p = pricing();
    let (c, priced) = p.cost(Some("vendor/alpha"), 1, 2, 3, 4, 5);
    assert!(priced);
    let expect = vec![
        Charge { count: 1, price: num(1e-6) },
        Charge { count: 2, price: num(2e-6) },
        Charge { count: 3, price: num(3e-7) },
        Charge { count: 4, price: num(4e-7) },
        Charge { count: 5, price: num(2e-6) },
    ];
    assert_eq!(c, expect);
    let usd: f64 = c.iter().map(|x| x.count as f64 * f64::from_bits(x.price.bits)).sum();
    assert!((usd - 17.5e-6).abs() < 1e-12);
}

#[test]
fn unknown_models_cost_nothing() {
    let p = pricing();
    assert_eq!(p.cost(Some("nobody"), 1, 2, 3, 4, 5), (vec![], false));
    assert_eq!(p.cost(None, 1, 2, 3, 4, 5), (vec![], false));
    assert_eq!(Pricing::default().len(), 0);
}

#[test]
fn dataset_is_cached_for_a_day() {
    assert_eq!(REFRESH_AFTER, 24 * 3600);
    assert_eq!(first_step(None), PriceStep::Fetch);
    assert_eq!(first_step(Some(86_399)), PriceStep::ReadCache);
    assert_eq!(first_step(Some(86_400)), PriceStep::Fetch);
    assert_eq!(next_step(PriceStep::ReadCache, true), PriceStep::Use);
    assert_eq!(next_step(PriceStep::ReadCache, false), PriceStep::Fetch);
    assert_eq!(next_step(PriceStep::Fetch, true), PriceStep::StoreAndUse);
    assert_eq!(next_step(PriceStep::Fetch, false), PriceStep::ReadStale);
    assert_eq!(next_step(PriceStep::ReadStale, true), PriceStep::Use);
    assert_eq!(next_step(PriceStep::ReadStale, false), PriceStep::Fail);
}
