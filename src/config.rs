use vstd::prelude::*;
use crate::decimal::{Dec, parse_spec};

verus! {

/// The settings the bot reads from its environment, as found there.
#[derive(Clone, Debug, PartialEq, Eq, Default)]
pub struct EnvVars {
    pub agent_private_key: Option<String>,
    pub agent_wallet_address: Option<String>,
    pub master_address: Option<String>,
    pub perp_symbol: Option<String>,
    pub spot_symbol: Option<String>,
    pub bps_threshold: Option<String>,
    pub position_size_usd: Option<String>,
    pub leverage: Option<String>,
    pub max_position_size_usd: Option<String>,
    pub stop_loss_bps: Option<String>,
    pub dry_run: Option<String>,
}

/// A setting that can be missing or malformed.
#[derive(Clone, Copy, Debug, PartialEq, Eq, Structural)]
pub enum ConfigKey {
    AgentPrivateKey,
    AgentWalletAddress,
    BpsThreshold,
    PositionSizeUsd,
    Leverage,
    MaxPositionSizeUsd,
    StopLossBps,
}

impl ConfigKey {
    /// The environment variable the setting is read from.
    pub fn var_name(&self) -> &'static str {
        match self {
            ConfigKey::AgentPrivateKey => "HL_API_AGENT_PRIVATE_KEY",
            ConfigKey::AgentWalletAddress => "HL_API_AGENT_WALLET_ADDRESS",
            ConfigKey::BpsThreshold => "BPS_THRESHOLD",
            ConfigKey::PositionSizeUsd => "POSITION_SIZE_USD",
            ConfigKey::Leverage => "LEVERAGE",
            ConfigKey::MaxPositionSizeUsd => "MAX_POSITION_SIZE_USD",
            ConfigKey::StopLossBps => "STOP_LOSS_BPS",
        }
    }
}

/// Why the configuration could not be built.
#[derive(Clone, Copy, Debug, PartialEq, Eq, Structural)]
pub enum ConfigError {
    Missing(ConfigKey),
    Malformed(ConfigKey),
}

#[derive(Clone, Debug, PartialEq, Eq)]
pub struct TradingParams {
    pub perp_symbol: String,
    pub spot_symbol: String,
    pub bps_threshold: Dec,
    pub position_size_usd: Dec,
    pub leverage: u32,
}

#[derive(Clone, Debug, PartialEq, Eq)]
pub struct RiskParams {
    pub max_position_size_usd: Dec,
    pub stop_loss_bps: Dec,
}

/// Process-wide settings, built once at startup and only read afterwards.
#[derive(Clone, Debug, PartialEq, Eq)]
pub struct Config {
    pub wallet_private_key: String,
    pub wallet_address: String,
    pub master_address: Option<String>,
    pub trading: TradingParams,
    pub risk: RiskParams,
    pub is_dry_run: bool,
}

pub open spec fn is_ascii_digit(c: char) -> bool {
    '0' <= c && c <= '9'
}

/// The number a string of decimal digits denotes.
pub open spec fn digits_value(s: Seq<char>) -> int
    decreases s.len(),
{
    if s.len() == 0 {
        0
    } else {
        digits_value(s.drop_last()) * 10 + (s.last() as int - '0' as int)
    }
}

/// What `u32::from_str` accepts: an optional `+`, then one or more ASCII
/// digits whose value fits in a `u32`.
pub open spec fn u32_text(s: Seq<char>) -> Option<u32> {
    let t = if s.len() > 0 && s[0] == '+' {
        s.drop_first()
    } else {
        s
    };
    if t.len() > 0 && (forall|i: int| 0 <= i < t.len() ==> is_ascii_digit(#[trigger] t[i]))
        && digits_value(t) <= u32::MAX {
        Some(digits_value(t) as u32)
    } else {
        None
    }
}

/// Relies on `<u32 as FromStr>::from_str`, which reads an optional `+` and
/// decimal digits, and fails on anything else or on overflow.
#[verifier::external_body]
fn read_u32(s: &str) -> (r: Option<u32>)
    ensures
        r == u32_text(s@),
{
    <u32 as std::str::FromStr>::from_str(s).ok()
}

/// A decimal setting: its text read as a decimal, or the default when unset.
pub open spec fn dec_setting(v: Option<String>, default: Dec) -> Option<Dec> {
    match v {
        Some(s) => parse_spec(s@),
        None => Some(default),
    }
}

pub open spec fn leverage_setting(v: Option<String>) -> Option<u32> {
    match v {
        Some(s) => u32_text(s@),
        None => Some(2),
    }
}

pub open spec fn text_setting(v: Option<String>, default: Seq<char>) -> Seq<char> {
    match v {
        Some(s) => s@,
        None => default,
    }
}

pub open spec fn default_bps_threshold() -> Dec {
    Dec { mantissa: 50, scale: 1 }
}

pub open spec fn default_position_size_usd() -> Dec {
    Dec { mantissa: 200, scale: 1 }
}

pub open spec fn default_max_position_size_usd() -> Dec {
    Dec { mantissa: 1000, scale: 1 }
}

pub open spec fn default_stop_loss_bps() -> Dec {
    Dec { mantissa: 500, scale: 1 }
}

/// The first setting that is missing or malformed, in the order they are read.
pub open spec fn config_error(env: EnvVars) -> Option<ConfigError> {
    if env.agent_private_key is None {
        Some(ConfigError::Missing(ConfigKey::AgentPrivateKey))
    } else if env.agent_wallet_address is None {
        Some(ConfigError::Missing(ConfigKey::AgentWalletAddress))
    } else if dec_setting(env.bps_threshold, default_bps_threshold()) is None {
        Some(ConfigError::Malformed(ConfigKey::BpsThreshold))
    } else if dec_setting(env.position_size_usd, default_position_size_usd()) is None {
        Some(ConfigError::Malformed(ConfigKey::PositionSizeUsd))
    } else if leverage_setting(env.leverage) is None {
        Some(ConfigError::Malformed(ConfigKey::Leverage))
    } else if dec_setting(env.max_position_size_usd, default_max_position_size_usd()) is None {
        Some(ConfigError::Malformed(ConfigKey::MaxPositionSizeUsd))
    } else if dec_setting(env.stop_loss_bps, default_stop_loss_bps()) is None {
        Some(ConfigError::Malformed(ConfigKey::StopLossBps))
    } else {
        None
    }
}

fn read_dec_setting(v: &Option<String>, default: Dec) -> (r: Option<Dec>)
    requires
        default.wf(),
    ensures
        r == dec_setting(*v, default),
        r matches Some(d) ==> d.wf(),
{
    match v {
        Some(s) => Dec::parse(s.as_str()),
        None => Some(default),
    }
}

fn text_or(v: Option<String>, default: &str) -> (r: String)
    ensures
        r@ == text_setting(v, default@),
{
    match v {
        Some(s) => s,
        None => default.to_owned(),
    }
}

impl Config {
    /// Builds the configuration from the environment's values: the agent key
    /// and address are required, the master address counts only when
    /// non-empty, other settings fall back to their defaults, and a malformed
    /// number fails the whole.
    pub fn from_env(env: EnvVars) -> (r: Result<Config, ConfigError>)
        ensures
            match config_error(env) {
                Some(e) => r == Err::<Config, ConfigError>(e),
                None => r matches Ok(c) && {
                    &&& Some(c.wallet_private_key) == env.agent_private_key
                    &&& Some(c.wallet_address) == env.agent_wallet_address
                    &&& c.master_address == (match env.master_address {
                        Some(m) => if m@.len() == 0 {
                            None::<String>
                        } else {
                            Some(m)
                        },
                        None => None::<String>,
                    })
                    &&& c.trading.perp_symbol@ == text_setting(env.perp_symbol, "HYPE"@)
                    &&& c.trading.spot_symbol@ == text_setting(env.spot_symbol, "@107"@)
                    &&& Some(c.trading.bps_threshold) == dec_setting(
                        env.bps_threshold,
                        default_bps_threshold(),
                    )
                    &&& Some(c.trading.position_size_usd) == dec_setting(
                        env.position_size_usd,
                        default_position_size_usd(),
                    )
                    &&& Some(c.trading.leverage) == leverage_setting(env.leverage)
                    &&& Some(c.risk.max_position_size_usd) == dec_setting(
                        env.max_position_size_usd,
                        default_max_position_size_usd(),
                    )
                    &&& Some(c.risk.stop_loss_bps) == dec_setting(
                        env.stop_loss_bps,
                        default_stop_loss_bps(),
                    )
                    &&& c.trading.bps_threshold.wf() && c.trading.position_size_usd.wf()
                    &&& c.risk.max_position_size_usd.wf() && c.risk.stop_loss_bps.wf()
                    &&& c.is_dry_run == (match env.dry_run {
                        Some(d) => d@ == "true"@,
                        None => true,
                    })
                },
            },
    {
        let wallet_private_key = match env.agent_private_key {
            Some(k) => k,
            None => {
                return Err(ConfigError::Missing(ConfigKey::AgentPrivateKey));
            },
        };
        let wallet_address = match env.agent_wallet_address {
            Some(a) => a,
            None => {
                return Err(ConfigError::Missing(ConfigKey::AgentWalletAddress));
            },
        };
        let bps_threshold = match read_dec_setting(&env.bps_threshold, Dec { mantissa: 50, scale: 1 }) {
            Some(d) => d,
            None => {
                return Err(ConfigError::Malformed(ConfigKey::BpsThreshold));
            },
        };
        let position_size_usd = match read_dec_setting(&env.position_size_usd, Dec { mantissa: 200, scale: 1 }) {
            Some(d) => d,
            None => {
                return Err(ConfigError::Malformed(ConfigKey::PositionSizeUsd));
            },
        };
        let leverage = match &env.leverage {
            Some(s) => match read_u32(s.as_str()) {
                Some(v) => v,
                None => {
                    return Err(ConfigError::Malformed(ConfigKey::Leverage));
                },
            },
            None => 2,
        };
        let max_position_size_usd = match read_dec_setting(&env.max_position_size_usd, Dec { mantissa: 1000, scale: 1 }) {
            Some(d) => d,
            None => {
                return Err(ConfigError::Malformed(ConfigKey::MaxPositionSizeUsd));
            },
        };
        let stop_loss_bps = match read_dec_setting(&env.stop_loss_bps, Dec { mantissa: 500, scale: 1 }) {
            Some(d) => d,
            None => {
                return Err(ConfigError::Malformed(ConfigKey::StopLossBps));
            },
        };
        let master_address = match env.master_address {
            Some(m) => if m.as_str().is_empty() {
                None
            } else {
                Some(m)
            },
            None => None,
        };
        let is_dry_run = match &env.dry_run {
            Some(d) => {
                let t = "true".to_owned();
                *d == t
            },
            None => true,
        };
        let perp_symbol = text_or(env.perp_symbol, "HYPE");
        let spot_symbol = text_or(env.spot_symbol, "@107");
        Ok(Config {
            wallet_private_key,
            wallet_address,
            master_address,
            trading: TradingParams {
                perp_symbol,
                spot_symbol,
                bps_threshold,
                position_size_usd,
                leverage,
            },
            risk: RiskParams { max_position_size_usd, stop_loss_bps },
            is_dry_run,
        })
    }

    /// The account whose balances are read: the master account when one is
    /// set, else the agent's own address.
    pub fn target_address(&self) -> (r: &String)
        ensures
            r == (match self.master_address {
                Some(m) => m,
                None => self.wallet_address,
            }),
    {
        match &self.master_address {
            Some(m) => m,
            None => &self.wallet_address,
        }
    }
}

} // verus!
