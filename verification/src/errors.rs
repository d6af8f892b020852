use vstd::prelude::*;

verus! {

/// Errors of the registry's administration entry points.
#[derive(Copy, Clone, Debug, PartialEq, Eq, Structural, PartialOrd, Ord)]
pub enum AdminError {
    Unauthorized,
    AlreadyInitialized,
    NotInitialized,
    InvalidParameter,
    TradingPaused,
    PauseExpired,
    InvalidFeeRate,
    InvalidRiskParameter,
    InsufficientSignatures,
    DuplicateSigner,
    InvalidAssetPair,
    CannotFollowSelf,
    InvalidTimestamp,
    ScheduleTooFarFuture,
    ScheduleLimitReached,
    ScheduleNotFound,
    NotScheduleOwner,
}

impl AdminError {
    /// The contract error code of each variant.
    pub open spec fn code_of(self) -> u32 {
        match self {
            AdminError::Unauthorized => 1,
            AdminError::AlreadyInitialized => 2,
            AdminError::NotInitialized => 3,
            AdminError::InvalidParameter => 4,
            AdminError::TradingPaused => 5,
            AdminError::PauseExpired => 6,
            AdminError::InvalidFeeRate => 7,
            AdminError::InvalidRiskParameter => 8,
            AdminError::InsufficientSignatures => 9,
            AdminError::DuplicateSigner => 10,
            AdminError::InvalidAssetPair => 11,
            AdminError::CannotFollowSelf => 12,
            AdminError::InvalidTimestamp => 16,
            AdminError::ScheduleTooFarFuture => 17,
            AdminError::ScheduleLimitReached => 18,
            AdminError::ScheduleNotFound => 19,
            AdminError::NotScheduleOwner => 20,
        }
    }

    pub fn code(&self) -> (c: u32)
        ensures
            c == self.code_of(),
    {
        match self {
            AdminError::Unauthorized => 1,
            AdminError::AlreadyInitialized => 2,
            AdminError::NotInitialized => 3,
            AdminError::InvalidParameter => 4,
            AdminError::TradingPaused => 5,
            AdminError::PauseExpired => 6,
            AdminError::InvalidFeeRate => 7,
            AdminError::InvalidRiskParameter => 8,
            AdminError::InsufficientSignatures => 9,
            AdminError::DuplicateSigner => 10,
            AdminError::InvalidAssetPair => 11,
            AdminError::CannotFollowSelf => 12,
            AdminError::InvalidTimestamp => 16,
            AdminError::ScheduleTooFarFuture => 17,
            AdminError::ScheduleLimitReached => 18,
            AdminError::ScheduleNotFound => 19,
            AdminError::NotScheduleOwner => 20,
        }
    }
}

/// Errors of fee computation.
#[derive(Copy, Clone, Debug, PartialEq, Eq, Structural, PartialOrd, Ord)]
pub enum FeeError {
    TradeTooSmall,
    FeeRoundedToZero,
    ArithmeticOverflow,
    InvalidAmount,
    InvalidProviderAddress,
}

impl FeeError {
    pub open spec fn code_of(self) -> u32 {
        match self {
            FeeError::TradeTooSmall => 100,
            FeeError::FeeRoundedToZero => 101,
            FeeError::ArithmeticOverflow => 102,
            FeeError::InvalidAmount => 103,
            FeeError::InvalidProviderAddress => 104,
        }
    }

    pub fn code(&self) -> (c: u32)
        ensures
            c == self.code_of(),
    {
        match self {
            FeeError::TradeTooSmall => 100,
            FeeError::FeeRoundedToZero => 101,
            FeeError::ArithmeticOverflow => 102,
            FeeError::InvalidAmount => 103,
            FeeError::InvalidProviderAddress => 104,
        }
    }
}

/// Errors of the follow graph.
#[derive(Copy, Clone, Debug, PartialEq, Eq, Structural, PartialOrd, Ord)]
pub enum SocialError {
    CannotFollowSelf,
}

impl SocialError {
    pub open spec fn code_of(self) -> u32 {
        match self {
            SocialError::CannotFollowSelf => 50,
        }
    }

    pub fn code(&self) -> (c: u32)
        ensures
            c == self.code_of(),
    {
        match self {
            SocialError::CannotFollowSelf => 50,
        }
    }
}

/// Errors of trade recording and performance tracking.
#[derive(Copy, Clone, Debug, PartialEq, Eq, Structural, PartialOrd, Ord)]
pub enum PerformanceError {
    SignalNotFound,
    InvalidPrice,
    DivisionByZero,
    InvalidVolume,
    SignalExpired,
    NoExecutions,
}

impl PerformanceError {
    pub open spec fn code_of(self) -> u32 {
        match self {
            PerformanceError::SignalNotFound => 200,
            PerformanceError::InvalidPrice => 201,
            PerformanceError::DivisionByZero => 202,
            PerformanceError::InvalidVolume => 203,
            PerformanceError::SignalExpired => 204,
            PerformanceError::NoExecutions => 205,
        }
    }

    pub fn code(&self) -> (c: u32)
        ensures
            c == self.code_of(),
    {
        match self {
            PerformanceError::SignalNotFound => 200,
            PerformanceError::InvalidPrice => 201,
            PerformanceError::DivisionByZero => 202,
            PerformanceError::InvalidVolume => 203,
            PerformanceError::SignalExpired => 204,
            PerformanceError::NoExecutions => 205,
        }
    }
}

/// Errors of signal templates.
#[derive(Copy, Clone, Debug, PartialEq, Eq, Structural, PartialOrd, Ord)]
pub enum TemplateError {
    TemplateNotFound,
    Unauthorized,
    PrivateTemplate,
    MissingVariable,
    InvalidTemplate,
    InvalidAction,
    InvalidExpiry,
}

impl TemplateError {
    pub open spec fn code_of(self) -> u32 {
        match self {
            TemplateError::TemplateNotFound => 300,
            TemplateError::Unauthorized => 301,
            TemplateError::PrivateTemplate => 302,
            TemplateError::MissingVariable => 303,
            TemplateError::InvalidTemplate => 304,
            TemplateError::InvalidAction => 305,
            TemplateError::InvalidExpiry => 306,
        }
    }

    pub fn code(&self) -> (c: u32)
        ensures
            c == self.code_of(),
    {
        match self {
            TemplateError::TemplateNotFound => 300,
            TemplateError::Unauthorized => 301,
            TemplateError::PrivateTemplate => 302,
            TemplateError::MissingVariable => 303,
            TemplateError::InvalidTemplate => 304,
            TemplateError::InvalidAction => 305,
            TemplateError::InvalidExpiry => 306,
        }
    }
}

/// Errors of signal import.
#[derive(Copy, Clone, Debug, PartialEq, Eq, Structural, PartialOrd, Ord)]
pub enum ImportError {
    InvalidFormat,
    InvalidAssetPair,
    InvalidPrice,
    InvalidAction,
    InvalidRationale,
    InvalidExpiry,
    BatchSizeExceeded,
    EmptyData,
    ParseError,
}

impl ImportError {
    pub open spec fn code_of(self) -> u32 {
        match self {
            ImportError::InvalidFormat => 400,
            ImportError::InvalidAssetPair => 401,
            ImportError::InvalidPrice => 402,
            ImportError::InvalidAction => 403,
            ImportError::InvalidRationale => 404,
            ImportError::InvalidExpiry => 405,
            ImportError::BatchSizeExceeded => 406,
            ImportError::EmptyData => 407,
            ImportError::ParseError => 408,
        }
    }

    pub fn code(&self) -> (c: u32)
        ensures
            c == self.code_of(),
    {
        match self {
            ImportError::InvalidFormat => 400,
            ImportError::InvalidAssetPair => 401,
            ImportError::InvalidPrice => 402,
            ImportError::InvalidAction => 403,
            ImportError::InvalidRationale => 404,
            ImportError::InvalidExpiry => 405,
            ImportError::BatchSizeExceeded => 406,
            ImportError::EmptyData => 407,
            ImportError::ParseError => 408,
        }
    }
}

/// Errors of collaborative signals.
#[derive(Copy, Clone, Debug, PartialEq, Eq, Structural, PartialOrd, Ord)]
pub enum CollaborationError {
    NotCoAuthor,
    AlreadyApproved,
    InvalidContributions,
    NotCollaborative,
    PendingApproval,
}

impl CollaborationError {
    pub open spec fn code_of(self) -> u32 {
        match self {
            CollaborationError::NotCoAuthor => 500,
            CollaborationError::AlreadyApproved => 501,
            CollaborationError::InvalidContributions => 502,
            CollaborationError::NotCollaborative => 503,
            CollaborationError::PendingApproval => 504,
        }
    }

    pub fn code(&self) -> (c: u32)
        ensures
            c == self.code_of(),
    {
        match self {
            CollaborationError::NotCoAuthor => 500,
            CollaborationError::AlreadyApproved => 501,
            CollaborationError::InvalidContributions => 502,
            CollaborationError::NotCollaborative => 503,
            CollaborationError::PendingApproval => 504,
        }
    }
}

/// Errors of data export.
#[derive(Copy, Clone, Debug, PartialEq, Eq, Structural, PartialOrd, Ord)]
pub enum ExportError {
    UnsupportedFormat,
    NoDataInRange,
    ExportTooLarge,
}

impl ExportError {
    pub open spec fn code_of(self) -> u32 {
        match self {
            ExportError::UnsupportedFormat => 700,
            ExportError::NoDataInRange => 701,
            ExportError::ExportTooLarge => 702,
        }
    }

    pub fn code(&self) -> (c: u32)
        ensures
            c == self.code_of(),
    {
        match self {
            ExportError::UnsupportedFormat => 700,
            ExportError::NoDataInRange => 701,
            ExportError::ExportTooLarge => 702,
        }
    }
}

/// Errors of combo signals.
#[derive(Copy, Clone, Debug, PartialEq, Eq, Structural, PartialOrd, Ord)]
pub enum ComboError {
    ComboNotFound,
    SignalNotFound,
    NotSignalOwner,
    InvalidWeights,
    WeightOverflow,
    NoComponents,
    TooManyComponents,
    SignalNotActive,
    ComponentSignalExpired,
    InvalidConditionReference,
    ComboNotActive,
    InvalidAmount,
}

impl ComboError {
    pub open spec fn code_of(self) -> u32 {
        match self {
            ComboError::ComboNotFound => 600,
            ComboError::SignalNotFound => 601,
            ComboError::NotSignalOwner => 602,
            ComboError::InvalidWeights => 603,
            ComboError::WeightOverflow => 604,
            ComboError::NoComponents => 605,
            ComboError::TooManyComponents => 606,
            ComboError::SignalNotActive => 607,
            ComboError::ComponentSignalExpired => 608,
            ComboError::InvalidConditionReference => 609,
            ComboError::ComboNotActive => 610,
            ComboError::InvalidAmount => 611,
        }
    }

    pub fn code(&self) -> (c: u32)
        ensures
            c == self.code_of(),
    {
        match self {
            ComboError::ComboNotFound => 600,
            ComboError::SignalNotFound => 601,
            ComboError::NotSignalOwner => 602,
            ComboError::InvalidWeights => 603,
            ComboError::WeightOverflow => 604,
            ComboError::NoComponents => 605,
            ComboError::TooManyComponents => 606,
            ComboError::SignalNotActive => 607,
            ComboError::ComponentSignalExpired => 608,
            ComboError::InvalidConditionReference => 609,
            ComboError::ComboNotActive => 610,
            ComboError::InvalidAmount => 611,
        }
    }
}

/// Errors of trading contests.
#[derive(Copy, Clone, Debug, PartialEq, Eq, Structural, PartialOrd, Ord)]
pub enum ContestError {
    ContestNotFound,
    InvalidTimeRange,
    InvalidPrizePool,
    ContestNotEnded,
    AlreadyFinalized,
    NotQualified,
}

impl ContestError {
    pub open spec fn code_of(self) -> u32 {
        match self {
            ContestError::ContestNotFound => 800,
            ContestError::InvalidTimeRange => 801,
            ContestError::InvalidPrizePool => 802,
            ContestError::ContestNotEnded => 803,
            ContestError::AlreadyFinalized => 804,
            ContestError::NotQualified => 805,
        }
    }

    pub fn code(&self) -> (c: u32)
        ensures
            c == self.code_of(),
    {
        match self {
            ContestError::ContestNotFound => 800,
            ContestError::InvalidTimeRange => 801,
            ContestError::InvalidPrizePool => 802,
            ContestError::ContestNotEnded => 803,
            ContestError::AlreadyFinalized => 804,
            ContestError::NotQualified => 805,
        }
    }
}

/// Errors of signal versioning.
#[derive(Copy, Clone, Debug, PartialEq, Eq, Structural, PartialOrd, Ord)]
pub enum VersioningError {
    NotSignalOwner,
    CannotUpdateInactive,
    MaxUpdatesReached,
    UpdateCooldown,
    SignalExpired,
    InvalidPrice,
    InvalidExpiry,
    VersionNotFound,
}

impl VersioningError {
    pub open spec fn code_of(self) -> u32 {
        match self {
            VersioningError::NotSignalOwner => 900,
            VersioningError::CannotUpdateInactive => 901,
            VersioningError::MaxUpdatesReached => 902,
            VersioningError::UpdateCooldown => 903,
            VersioningError::SignalExpired => 904,
            VersioningError::InvalidPrice => 905,
            VersioningError::InvalidExpiry => 906,
            VersioningError::VersionNotFound => 907,
        }
    }

    pub fn code(&self) -> (c: u32)
        ensures
            c == self.code_of(),
    {
        match self {
            VersioningError::NotSignalOwner => 900,
            VersioningError::CannotUpdateInactive => 901,
            VersioningError::MaxUpdatesReached => 902,
            VersioningError::UpdateCooldown => 903,
            VersioningError::SignalExpired => 904,
            VersioningError::InvalidPrice => 905,
            VersioningError::InvalidExpiry => 906,
            VersioningError::VersionNotFound => 907,
        }
    }
}

/// Reasons an asset pair such as `XLM/USDC` fails validation.
#[derive(Copy, Clone, Debug, PartialEq, Eq, Structural)]
pub enum AssetPairError {
    InvalidFormat,
    InvalidAssetCode,
    InvalidIssuer,
    SameAssets,
}

} // verus!
