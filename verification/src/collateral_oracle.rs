use vstd::prelude::*;
use crate::math::Decimal;

verus! {

/// The addresses and the base denomination a collateral oracle starts with.
#[derive(Clone, Debug, PartialEq, Eq)]
pub struct InitMsg {
    pub owner: String,
    pub mint_contract: String,
    pub base_denom: String,
    pub oraix_oracle: String,
    pub anchor_oracle: String,
    pub band_oracle: String,
}

/// An asset: a token contract or a native coin.
#[derive(Clone, Debug, PartialEq, Eq)]
pub enum AssetInfo {
    Token { contract_addr: String },
    NativeToken { denom: String },
}

/// What a collateral oracle can be told to do.
#[derive(Clone, Debug, PartialEq, Eq)]
pub enum HandleMsg {
    UpdateConfig {
        owner: Option<String>,
        mint_contract: Option<String>,
        base_denom: Option<String>,
        oraix_oracle: Option<String>,
        anchor_oracle: Option<String>,
        band_oracle: Option<String>,
    },
    RegisterCollateralAsset { asset: AssetInfo, price_source: SourceType, multiplier: Decimal },
    RevokeCollateralAsset { asset: AssetInfo },
    UpdateCollateralPriceSource { asset: AssetInfo, price_source: SourceType },
    UpdateCollateralMultiplier { asset: AssetInfo, multiplier: Decimal },
}

/// What can be asked of a collateral oracle.
#[derive(Clone, Debug, PartialEq, Eq)]
pub enum QueryMsg {
    Config {  },
    CollateralPrice { asset: String, block_height: Option<u64> },
    CollateralAssetInfo { asset: String },
    CollateralAssetInfos {  },
}

/// The configuration a collateral oracle reports.
#[derive(Clone, Debug, PartialEq, Eq)]
pub struct ConfigResponse {
    pub owner: String,
    pub mint_contract: String,
    pub base_denom: String,
    pub oraix_oracle: String,
    pub anchor_oracle: String,
    pub band_oracle: String,
}

/// The price of a collateral asset.
#[derive(Clone, Debug, PartialEq, Eq)]
pub struct CollateralPriceResponse {
    pub asset: String,
    pub rate: Decimal,
    pub last_updated: u64,
    pub multiplier: Decimal,
    pub is_revoked: bool,
}

/// How a collateral asset is registered.
#[derive(Clone, Debug, PartialEq, Eq)]
pub struct CollateralInfoResponse {
    pub asset: String,
    pub multiplier: Decimal,
    pub source_type: String,
    pub is_revoked: bool,
}

/// All registered collateral assets.
#[derive(Clone, Debug, PartialEq, Eq)]
pub struct CollateralInfosResponse {
    pub collaterals: Vec<CollateralInfoResponse>,
}

/// What a migration of the collateral oracle is given.
#[derive(Clone, Debug, PartialEq, Eq)]
pub struct MigrateMsg {
    pub lunax_token_addr: String,
    pub lunax_staking_contract: String,
    pub multiplier: Decimal,
}

/// Where the price of a collateral asset comes from.
#[derive(Clone, Debug, PartialEq, Eq)]
pub enum SourceType {
    MirrorOracle {  },
    AnchorOracle {  },
    BandOracle {  },
    FixedPrice { price: Decimal },
    Terraswap { oraiswap_pair_addr: String, intermediate_denom: Option<String> },
    AnchorMarket { anchor_market_addr: String },
    Native { native_denom: String },
    Lunax { staking_contract_addr: String },
}

impl SourceType {
    /// The name under which a source is stored and shown.
    pub open spec fn spec_name(&self) -> Seq<char> {
        match self {
            SourceType::MirrorOracle { .. } => "oraix_oracle"@,
            SourceType::AnchorOracle { .. } => "anchor_oracle"@,
            SourceType::BandOracle { .. } => "band_oracle"@,
            SourceType::FixedPrice { .. } => "fixed_price"@,
            SourceType::Terraswap { .. } => "oraiswap"@,
            SourceType::AnchorMarket { .. } => "anchor_market"@,
            SourceType::Native { .. } => "native"@,
            SourceType::Lunax { .. } => "lunax"@,
        }
    }

    pub fn name(&self) -> (s: &'static str)
        ensures
            s@ == self.spec_name(),
    {
        match self {
            SourceType::MirrorOracle { .. } => "oraix_oracle",
            SourceType::AnchorOracle { .. } => "anchor_oracle",
            SourceType::BandOracle { .. } => "band_oracle",
            SourceType::FixedPrice { .. } => "fixed_price",
            SourceType::Terraswap { .. } => "oraiswap",
            SourceType::AnchorMarket { .. } => "anchor_market",
            SourceType::Native { .. } => "native",
            SourceType::Lunax { .. } => "lunax",
        }
    }
}

} // verus!
