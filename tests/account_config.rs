use hype_exec::account::{reconcile, PerpPositionReport, PerpStateReport, SpotBalanceReport};
use hype_exec::config::{Config, ConfigError, ConfigKey, EnvVars};
use hype_exec::decimal::Dec;
use hype_exec::error::TradeError;

fn spot() -> Vec<SpotBalanceReport> {
    vec![
        SpotBalanceReport { coin: "USDC".to_string(), total: "105.25".to_string() },
        SpotBalanceReport { coin: "HYPE".to_string(), total: "0.50".to_string() },
    ]
}

fn perp() -> PerpStateReport {
    PerpStateReport {
        account_value: "250.0".to_string(),
        positions: vec![PerpPositionReport { coin: "HYPE".to_string(), szi: "-0.5".to_string(), entry_px: Some("24.1".to_string()) }],
    }
}

#[test]
fn reconcile_joins_both_views() {
    let s = reconcile(Ok(spot()), Ok(perp())).unwrap();
    assert_eq!(s.spot_balances.len(), 2);
    assert_eq!(s.spot_balances[0].coin, "USDC");
    assert_eq!(s.spot_balances[0].amount, Dec::new(10525, 2));
    assert_eq!(s.spot_balances[1].amount, Dec::new(50, 2));
    assert_eq!(s.perp_positions[0].size, Dec::new(-5, 1));
    assert_eq!(s.perp_positions[0].entry_price, Some(Dec::new(241, 1)));
    assert_eq!(s.account_value_usd, Dec::new(2500, 1));
}

#[test]
fn reconcile_twice_gives_same_snapshot() {
    let a = reconcile(Ok(spot()), Ok(perp()));
    let b = reconcile(Ok(spot()), Ok(perp()));
    assert_eq!(a, b);
}

#[test]
fn reconcile_never_returns_partial_view() {
    assert_eq!(reconcile(Err("spot down".to_string()), Ok(perp())), Err(TradeError::TransportFailure("spot down".to_string())));
    assert_eq!(reconcile(Ok(spot()), Err("perp down".to_string())), Err(TradeError::TransportFailure("perp down".to_string())));
    let mut bad = perp();
    bad.account_value = "n/a".to_string();
    assert_eq!(reconcile(Ok(spot()), Ok(bad)), Err(TradeError::MalformedNumber));
}

fn env() -> EnvVars {
    EnvVars {
        agent_private_key: Some("0xkey".to_string()),
        agent_wallet_address: Some("0xabc".to_string()),
        ..EnvVars::default()
    }
}

#[test]
fn config_defaults() {
    let c = Config::from_env(env()).unwrap();
    assert_eq!(c.wallet_address, "0xabc");
    assert_eq!(c.master_address, None);
    assert_eq!(c.trading.perp_symbol, "HYPE");
    assert_eq!(c.trading.spot_symbol, "@107");
    assert_eq!(c.trading.bps_threshold, Dec::new(50, 1));
    assert_eq!(c.trading.position_size_usd, Dec::new(200, 1));
    assert_eq!(c.trading.leverage, 2);
    assert_eq!(c.risk.max_position_size_usd, Dec::new(1000, 1));
    assert_eq!(c.risk.stop_loss_bps, Dec::new(500, 1));
    assert!(c.is_dry_run);
    assert_eq!(c.target_address(), "0xabc");
}

#[test]
fn config_reads_given_values() {
    let mut e = env();
    e.master_address = Some("0xmaster".to_string());
    e.leverage = Some("7".to_string());
    e.position_size_usd = Some("12.00".to_string());
    e.dry_run = Some("false".to_string());
    let c = Config::from_env(e).unwrap();
    assert_eq!(c.trading.leverage, 7);
    assert_eq!(c.trading.position_size_usd, Dec::new(1200, 2));
    assert!(!c.is_dry_run);
    assert_eq!(c.target_address(), "0xmaster");
}

#[test]
fn config_empty_master_is_absent() {
    let mut e = env();
    e.master_address = Some(String::new());
    assert_eq!(Config::from_env(e).unwrap().master_address, None);
}

#[test]
fn config_errors() {
    let mut e = env();
    e.agent_private_key = None;
    assert_eq!(Config::from_env(e), Err(ConfigError::Missing(ConfigKey::AgentPrivateKey)));
    let mut e = env();
    e.agent_wallet_address = None;
    assert_eq!(Config::from_env(e), Err(ConfigError::Missing(ConfigKey::AgentWalletAddress)));
    let mut e = env();
    e.leverage = Some("-1".to_string());
    assert_eq!(Config::from_env(e), Err(ConfigError::Malformed(ConfigKey::Leverage)));
    let mut e = env();
    e.stop_loss_bps = Some("fifty".to_string());
    assert_eq!(Config::from_env(e), Err(ConfigError::Malformed(ConfigKey::StopLossBps)));
    assert_eq!(ConfigKey::Leverage.var_name(), "LEVERAGE");
}
