//! The codes of the ITCH feed.
use vstd::prelude::*;

verus! {

/// The system events of a trading day.
#[derive(Debug, Clone, Copy, PartialEq, Eq, Structural)]
pub enum EventCode {
    StartOfMessages,
    StartOfSystemHours,
    StartOfMarketHours,
    EndOfMarketHours,
    EndOfSystemHours,
    EndOfMessages,
}

/// The market on which a security is listed.
#[derive(Debug, Clone, Copy, PartialEq, Eq, Structural)]
pub enum MarketCategory {
    NasdaqGlobalSelect,
    NasdaqGlobalMarket,
    NasdaqCapitalMarket,
    Nyse,
    NyseMkt,
    NyseArca,
    BatsZExchange,
    InvestorsExchange,
    Unavailable,
}

/// The financial status of an issuer.
#[derive(Debug, Clone, Copy, PartialEq, Eq, Structural)]
pub enum FinancialStatus {
    Normal,
    Deficient,
    Delinquent,
    Bankrupt,
    Suspended,
    DeficientBankrupt,
    DeficientDelinquent,
    DelinquentBankrupt,
    DeficientDelinquentBankrupt,
    EtpSuspended,
    Unavailable,
}

/// The kind of security.
#[derive(Debug, Clone, Copy, PartialEq, Eq, Structural)]
pub enum IssueClassification {
    AmericanDepositaryShare,
    Bond,
    CommonStock,
    DepositoryReceipt,
    A144,
    LimitedPartnership,
    Notes,
    OrdinaryShare,
    PreferredStock,
    OtherSecurities,
    Right,
    SharesOfBeneficialInterest,
    ConvertibleDebenture,
    Unit,
    UnitsPerBenifInt,
    Warrant,
}

/// The finer kind of security.
#[derive(Debug, Clone, Copy, PartialEq, Eq, Structural)]
pub enum IssueSubType {
    PreferredTrustSecurities,
    AlphaIndexETNs,
    IndexBasedDerivative,
    CommonShares,
    CommodityBasedTrustShares,
    CommodityFuturesTrustShares,
    CommodityLinkedSecurities,
    CommodityIndexTrustShares,
    CollateralizedMortgageObligation,
    CurrencyTrustShares,
    CommodityCurrencyLinkedSecurities,
    CurrencyWarrants,
    GlobalDepositaryShares,
    ETFPortfolioDepositaryReceipt,
    EquityGoldShares,
    ETNEquityIndexLinkedSecurities,
    ExchangeTradedManagedFunds,
    ExchangeTradedNotes,
    EquityUnits,
    Holdrs,
    ETNFixedIncomeLinkedSecurities,
    ETNFuturesLinkedSecurities,
    GlobalShares,
    ETFIndexFundShares,
    InterestRate,
    IndexWarrant,
    IndexLinkedExchangeableNotes,
    CorporateBackedTrustSecurity,
    ContingentLitigationRight,
    Llc,
    EquityBasedDerivative,
    ManagedFundShares,
    ETNMultiFactorIndexLinkedSecurities,
    ManagedTrustSecurities,
    NYRegistryShares,
    OpenEndedMutualFund,
    PrivatelyHeldSecurity,
    PoisonPill,
    PartnershipUnits,
    ClosedEndFunds,
    RegS,
    CommodityRedeemableCommodityLinkedSecurities,
    ETNRedeemableFuturesLinkedSecurities,
    REIT,
    CommodityRedeemableCurrencyLinkedSecurities,
    Seed,
    SpotRateClosing,
    SpotRateIntraday,
    TrackingStock,
    TrustCertificates,
    TrustUnits,
    Portal,
    ContingentValueRight,
    TrustIssuedReceipts,
    WorldCurrencyOption,
    Trust,
    Other,
    NotApplicable,
}

/// The limit-up-limit-down tier of a security.
#[derive(Debug, Clone, Copy, PartialEq, Eq, Structural)]
pub enum LuldRefPriceTier {
    Tier1,
    Tier2,
    Na,
}

/// The mode of a market maker.
#[derive(Debug, Clone, Copy, PartialEq, Eq, Structural)]
pub enum MarketMakerMode {
    Normal,
    Passive,
    Syndicate,
    Presyndicate,
    Penalty,
}

/// The state of a market participant.
#[derive(Debug, Clone, Copy, PartialEq, Eq, Structural)]
pub enum MarketParticipantState {
    Active,
    Excused,
    Withdrawn,
    Suspended,
    Deleted,
}

/// The short-sale restriction in effect.
#[derive(Debug, Clone, Copy, PartialEq, Eq, Structural)]
pub enum RegShoAction {
    NoPriceTest,
    Intraday,
    Extant,
}

/// Whether a security trades.
#[derive(Debug, Clone, Copy, PartialEq, Eq, Structural)]
pub enum TradingState {
    Halted,
    Paused,
    QuotationOnly,
    Trading,
}

/// The side on which an auction is out of balance.
#[derive(Debug, Clone, Copy, PartialEq, Eq, Structural)]
pub enum ImbalanceDirection {
    Buy,
    Sell,
    NoImbalance,
    InsufficientOrders,
}

/// The kind of auction that a cross trade comes from.
#[derive(Debug, Clone, Copy, PartialEq, Eq, Structural)]
pub enum CrossType {
    Opening,
    Closing,
    IpoOrHalted,
    Intraday,
    ExtendedTradingClose,
}

/// Whether a release of an offering is expected or called off.
#[derive(Debug, Clone, Copy, PartialEq, Eq, Structural)]
pub enum IpoReleaseQualifier {
    Anticipated,
    Cancelled,
}

/// The circuit-breaker level that the market has breached.
#[derive(Debug, Clone, Copy, PartialEq, Eq, Structural)]
pub enum LevelBreached {
    L1,
    L2,
    L3,
}

/// The sides on which retail interest is there.
#[derive(Debug, Clone, Copy, PartialEq, Eq, Structural)]
pub enum InterestFlag {
    RPIAvailableBuySide,
    RPIAvailableSellSide,
    RPIAvailableBothSides,
    RPINoneAvailable,
}

/// Why bytes could not be read as a code.
#[derive(Debug, Clone, Copy, PartialEq, Eq, Structural)]
pub enum ParseError {
    /// The input ends before the code does: so many bytes are missing.
    Incomplete(usize),
    /// The bytes are there and stand for no code.
    Unknown,
}

/// The kind of security that a byte stands for.
pub open spec fn issue_classification_of(code: u8) -> Option<IssueClassification> {
    if code == 65 {
        Some(IssueClassification::AmericanDepositaryShare)
    } else if code == 66 {
        Some(IssueClassification::Bond)
    } else if code == 67 {
        Some(IssueClassification::CommonStock)
    } else if code == 70 {
        Some(IssueClassification::DepositoryReceipt)
    } else if code == 73 {
        Some(IssueClassification::A144)
    } else if code == 76 {
        Some(IssueClassification::LimitedPartnership)
    } else if code == 78 {
        Some(IssueClassification::Notes)
    } else if code == 79 {
        Some(IssueClassification::OrdinaryShare)
    } else if code == 80 {
        Some(IssueClassification::PreferredStock)
    } else if code == 81 {
        Some(IssueClassification::OtherSecurities)
    } else if code == 82 {
        Some(IssueClassification::Right)
    } else if code == 83 {
        Some(IssueClassification::SharesOfBeneficialInterest)
    } else if code == 84 {
        Some(IssueClassification::ConvertibleDebenture)
    } else if code == 85 {
        Some(IssueClassification::Unit)
    } else if code == 86 {
        Some(IssueClassification::UnitsPerBenifInt)
    } else if code == 87 {
        Some(IssueClassification::Warrant)
    } else {
        None
    }
}

/// Reads the kind of a security from the first byte of the input, and hands
/// back the input that follows it.
pub fn parse_issue_classification(input: &[u8]) -> (parsed: Result<
    (&[u8], IssueClassification),
    ParseError,
>)
    ensures
        match parsed {
            Ok((rest, class)) => {
                &&& input@.len() >= 1
                &&& issue_classification_of(input@[0]) == Some(class)
                &&& rest@ == input@.skip(1)
            },
            Err(ParseError::Incomplete(missing)) => input@.len() == 0 && missing == 1,
            Err(ParseError::Unknown) => input@.len() >= 1 && issue_classification_of(input@[0])
                is None,
        },
{
    if input.len() < 1 {
        return Err(ParseError::Incomplete(1));
    }
    let code: u8 = input[0];
    let class = if code == 65 {
        IssueClassification::AmericanDepositaryShare
    } else if code == 66 {
        IssueClassification::Bond
    } else if code == 67 {
        IssueClassification::CommonStock
    } else if code == 70 {
        IssueClassification::DepositoryReceipt
    } else if code == 73 {
        IssueClassification::A144
    } else if code == 76 {
        IssueClassification::LimitedPartnership
    } else if code == 78 {
        IssueClassification::Notes
    } else if code == 79 {
        IssueClassification::OrdinaryShare
    } else if code == 80 {
        IssueClassification::PreferredStock
    } else if code == 81 {
        IssueClassification::OtherSecurities
    } else if code == 82 {
        IssueClassification::Right
    } else if code == 83 {
        IssueClassification::SharesOfBeneficialInterest
    } else if code == 84 {
        IssueClassification::ConvertibleDebenture
    } else if code == 85 {
        IssueClassification::Unit
    } else if code == 86 {
        IssueClassification::UnitsPerBenifInt
    } else if code == 87 {
        IssueClassification::Warrant
    } else {
        return Err(ParseError::Unknown);
    };
    let rest = vstd::slice::slice_subrange(input, 1, input.len());
    assert(rest@ =~= input@.skip(1));
    Ok((rest, class))
}

/// The finer kind of security that two bytes stand for.
pub open spec fn issue_subtype_of(first: u8, second: u8) -> Option<IssueSubType> {
    if first == 65 && second == 32 {
        Some(IssueSubType::PreferredTrustSecurities)
    } else if first == 65 && second == 73 {
        Some(IssueSubType::AlphaIndexETNs)
    } else if first == 66 && second == 32 {
        Some(IssueSubType::IndexBasedDerivative)
    } else if first == 67 && second == 32 {
        Some(IssueSubType::CommonShares)
    } else if first == 67 && second == 66 {
        Some(IssueSubType::CommodityBasedTrustShares)
    } else if first == 67 && second == 70 {
        Some(IssueSubType::CommodityFuturesTrustShares)
    } else if first == 67 && second == 76 {
        Some(IssueSubType::CommodityLinkedSecurities)
    } else if first == 67 && second == 77 {
        Some(IssueSubType::CommodityIndexTrustShares)
    } else if first == 67 && second == 79 {
        Some(IssueSubType::CollateralizedMortgageObligation)
    } else if first == 67 && second == 84 {
        Some(IssueSubType::CurrencyTrustShares)
    } else if first == 67 && second == 85 {
        Some(IssueSubType::CommodityCurrencyLinkedSecurities)
    } else if first == 67 && second == 87 {
        Some(IssueSubType::CurrencyWarrants)
    } else if first == 68 && second == 32 {
        Some(IssueSubType::GlobalDepositaryShares)
    } else if first == 69 && second == 32 {
        Some(IssueSubType::ETFPortfolioDepositaryReceipt)
    } else if first == 69 && second == 71 {
        Some(IssueSubType::EquityGoldShares)
    } else if first == 69 && second == 73 {
        Some(IssueSubType::ETNEquityIndexLinkedSecurities)
    } else if first == 69 && second == 77 {
        Some(IssueSubType::ExchangeTradedManagedFunds)
    } else if first == 69 && second == 78 {
        Some(IssueSubType::ExchangeTradedNotes)
    } else if first == 69 && second == 85 {
        Some(IssueSubType::EquityUnits)
    } else if first == 70 && second == 32 {
        Some(IssueSubType::Holdrs)
    } else if first == 70 && second == 73 {
        Some(IssueSubType::ETNFixedIncomeLinkedSecurities)
    } else if first == 70 && second == 76 {
        Some(IssueSubType::ETNFuturesLinkedSecurities)
    } else if first == 71 && second == 32 {
        Some(IssueSubType::GlobalShares)
    } else if first == 73 && second == 32 {
        Some(IssueSubType::ETFIndexFundShares)
    } else if first == 73 && second == 82 {
        Some(IssueSubType::InterestRate)
    } else if first == 73 && second == 87 {
        Some(IssueSubType::IndexWarrant)
    } else if first == 73 && second == 88 {
        Some(IssueSubType::IndexLinkedExchangeableNotes)
    } else if first == 74 && second == 32 {
        Some(IssueSubType::CorporateBackedTrustSecurity)
    } else if first == 76 && second == 32 {
        Some(IssueSubType::ContingentLitigationRight)
    } else if first == 76 && second == 76 {
        Some(IssueSubType::Llc)
    } else if first == 77 && second == 32 {
        Some(IssueSubType::EquityBasedDerivative)
    } else if first == 77 && second == 70 {
        Some(IssueSubType::ManagedFundShares)
    } else if first == 77 && second == 76 {
        Some(IssueSubType::ETNMultiFactorIndexLinkedSecurities)
    } else if first == 77 && second == 84 {
        Some(IssueSubType::ManagedTrustSecurities)
    } else if first == 78 && second == 32 {
        Some(IssueSubType::NYRegistryShares)
    } else if first == 79 && second == 32 {
        Some(IssueSubType::OpenEndedMutualFund)
    } else if first == 80 && second == 32 {
        Some(IssueSubType::PrivatelyHeldSecurity)
    } else if first == 80 && second == 80 {
        Some(IssueSubType::PoisonPill)
    } else if first == 80 && second == 85 {
        Some(IssueSubType::PartnershipUnits)
    } else if first == 81 && second == 32 {
        Some(IssueSubType::ClosedEndFunds)
    } else if first == 82 && second == 67 {
        Some(IssueSubType::CommodityRedeemableCommodityLinkedSecurities)
    } else if first == 82 && second == 70 {
        Some(IssueSubType::ETNRedeemableFuturesLinkedSecurities)
    } else if first == 82 && second == 84 {
        Some(IssueSubType::REIT)
    } else if first == 82 && second == 85 {
        Some(IssueSubType::CommodityRedeemableCurrencyLinkedSecurities)
    } else if first == 83 && second == 32 {
        Some(IssueSubType::Seed)
    } else if first == 83 && second == 67 {
        Some(IssueSubType::SpotRateClosing)
    } else if first == 83 && second == 73 {
        Some(IssueSubType::SpotRateIntraday)
    } else if first == 84 && second == 32 {
        Some(IssueSubType::TrackingStock)
    } else if first == 84 && second == 67 {
        Some(IssueSubType::TrustCertificates)
    } else if first == 84 && second == 85 {
        Some(IssueSubType::TrustUnits)
    } else if first == 85 && second == 32 {
        Some(IssueSubType::Portal)
    } else if first == 86 && second == 32 {
        Some(IssueSubType::ContingentValueRight)
    } else if first == 87 && second == 32 {
        Some(IssueSubType::TrustIssuedReceipts)
    } else if first == 87 && second == 67 {
        Some(IssueSubType::WorldCurrencyOption)
    } else if first == 88 && second == 32 {
        Some(IssueSubType::Trust)
    } else if first == 89 && second == 32 {
        Some(IssueSubType::Other)
    } else if first == 90 && second == 32 {
        Some(IssueSubType::NotApplicable)
    } else {
        None
    }
}

/// Reads the finer kind of a security from the first two bytes of the
/// input, and hands back the input that follows them.
pub fn parse_issue_subtype(input: &[u8]) -> (parsed: Result<(&[u8], IssueSubType), ParseError>)
    ensures
        match parsed {
            Ok((rest, subtype)) => {
                &&& input@.len() >= 2
                &&& issue_subtype_of(input@[0], input@[1]) == Some(subtype)
                &&& rest@ == input@.skip(2)
            },
            Err(ParseError::Incomplete(missing)) => input@.len() < 2 && missing == 2,
            Err(ParseError::Unknown) => input@.len() >= 2 && issue_subtype_of(input@[0], input@[1])
                is None,
        },
{
    if input.len() < 2 {
        return Err(ParseError::Incomplete(2));
    }
    let first: u8 = input[0];
    let second: u8 = input[1];
    let subtype = if first == 65 && second == 32 {
        IssueSubType::PreferredTrustSecurities
    } else if first == 65 && second == 73 {
        IssueSubType::AlphaIndexETNs
    } else if first == 66 && second == 32 {
        IssueSubType::IndexBasedDerivative
    } else if first == 67 && second == 32 {
        IssueSubType::CommonShares
    } else if first == 67 && second == 66 {
        IssueSubType::CommodityBasedTrustShares
    } else if first == 67 && second == 70 {
        IssueSubType::CommodityFuturesTrustShares
    } else if first == 67 && second == 76 {
        IssueSubType::CommodityLinkedSecurities
    } else if first == 67 && second == 77 {
        IssueSubType::CommodityIndexTrustShares
    } else if first == 67 && second == 79 {
        IssueSubType::CollateralizedMortgageObligation
    } else if first == 67 && second == 84 {
        IssueSubType::CurrencyTrustShares
    } else if first == 67 && second == 85 {
        IssueSubType::CommodityCurrencyLinkedSecurities
    } else if first == 67 && second == 87 {
        IssueSubType::CurrencyWarrants
    } else if first == 68 && second == 32 {
        IssueSubType::GlobalDepositaryShares
    } else if first == 69 && second == 32 {
        IssueSubType::ETFPortfolioDepositaryReceipt
    } else if first == 69 && second == 71 {
        IssueSubType::EquityGoldShares
    } else if first == 69 && second == 73 {
        IssueSubType::ETNEquityIndexLinkedSecurities
    } else if first == 69 && second == 77 {
        IssueSubType::ExchangeTradedManagedFunds
    } else if first == 69 && second == 78 {
        IssueSubType::ExchangeTradedNotes
    } else if first == 69 && second == 85 {
        IssueSubType::EquityUnits
    } else if first == 70 && second == 32 {
        IssueSubType::Holdrs
    } else if first == 70 && second == 73 {
        IssueSubType::ETNFixedIncomeLinkedSecurities
    } else if first == 70 && second == 76 {
        IssueSubType::ETNFuturesLinkedSecurities
    } else if first == 71 && second == 32 {
        IssueSubType::GlobalShares
    } else if first == 73 && second == 32 {
        IssueSubType::ETFIndexFundShares
    } else if first == 73 && second == 82 {
        IssueSubType::InterestRate
    } else if first == 73 && second == 87 {
        IssueSubType::IndexWarrant
    } else if first == 73 && second == 88 {
        IssueSubType::IndexLinkedExchangeableNotes
    } else if first == 74 && second == 32 {
        IssueSubType::CorporateBackedTrustSecurity
    } else if first == 76 && second == 32 {
        IssueSubType::ContingentLitigationRight
    } else if first == 76 && second == 76 {
        IssueSubType::Llc
    } else if first == 77 && second == 32 {
        IssueSubType::EquityBasedDerivative
    } else if first == 77 && second == 70 {
        IssueSubType::ManagedFundShares
    } else if first == 77 && second == 76 {
        IssueSubType::ETNMultiFactorIndexLinkedSecurities
    } else if first == 77 && second == 84 {
        IssueSubType::ManagedTrustSecurities
    } else if first == 78 && second == 32 {
        IssueSubType::NYRegistryShares
    } else if first == 79 && second == 32 {
        IssueSubType::OpenEndedMutualFund
    } else if first == 80 && second == 32 {
        IssueSubType::PrivatelyHeldSecurity
    } else if first == 80 && second == 80 {
        IssueSubType::PoisonPill
    } else if first == 80 && second == 85 {
        IssueSubType::PartnershipUnits
    } else if first == 81 && second == 32 {
        IssueSubType::ClosedEndFunds
    } else if first == 82 && second == 67 {
        IssueSubType::CommodityRedeemableCommodityLinkedSecurities
    } else if first == 82 && second == 70 {
        IssueSubType::ETNRedeemableFuturesLinkedSecurities
    } else if first == 82 && second == 84 {
        IssueSubType::REIT
    } else if first == 82 && second == 85 {
        IssueSubType::CommodityRedeemableCurrencyLinkedSecurities
    } else if first == 83 && second == 32 {
        IssueSubType::Seed
    } else if first == 83 && second == 67 {
        IssueSubType::SpotRateClosing
    } else if first == 83 && second == 73 {
        IssueSubType::SpotRateIntraday
    } else if first == 84 && second == 32 {
        IssueSubType::TrackingStock
    } else if first == 84 && second == 67 {
        IssueSubType::TrustCertificates
    } else if first == 84 && second == 85 {
        IssueSubType::TrustUnits
    } else if first == 85 && second == 32 {
        IssueSubType::Portal
    } else if first == 86 && second == 32 {
        IssueSubType::ContingentValueRight
    } else if first == 87 && second == 32 {
        IssueSubType::TrustIssuedReceipts
    } else if first == 87 && second == 67 {
        IssueSubType::WorldCurrencyOption
    } else if first == 88 && second == 32 {
        IssueSubType::Trust
    } else if first == 89 && second == 32 {
        IssueSubType::Other
    } else if first == 90 && second == 32 {
        IssueSubType::NotApplicable
    } else {
        return Err(ParseError::Unknown);
    };
    let rest = vstd::slice::slice_subrange(input, 2, input.len());
    assert(rest@ =~= input@.skip(2));
    Ok((rest, subtype))
}

} // verus!
