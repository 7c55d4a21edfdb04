use vstd::prelude::*;

verus! {

/// Why an entry point stops without committing anything.
///
/// The user variants carry the contract's own error codes (see `user_code`).
/// `ValueMissing` is an absent storage value read with a plain
/// `unwrap_or_revert`, which the host reports as `ApiError::None`.
/// `ArithmeticOverflow` and `MalformedData` are the inputs on which the
/// contract panics (an overflowing `+`/`-`/`*`, a failed `unwrap` while
/// parsing a stored or signed text).
#[derive(Clone, Copy, Debug, PartialEq, Eq, Structural)]
pub enum Error {
    NotAccountHash,
    MintMetadataNotValid,
    NoTokensFound,
    NotOwnerOfHolderId,
    NotEnoughTokens,
    ApprovedHolderDoesentExist,
    NotEnoughAmount,
    MetadataDoesentExist,
    NotEnoughBalance,
    TransferFailed,
    HolderDoesentExist,
    ApprovedListDoesentExist,
    EmptyOwnerShipList,
    PublisherHasNoApprovedHolders,
    ProducerHasNoApprovedHolders,
    EmptyRequestCnt,
    AccessDenied,
    EmptyU64List,
    MintHolderNotFound,
    InvalidSignature,
    InvalidTimestamp,
    ValueMissing,
    ArithmeticOverflow,
    MalformedData,
}

/// The `ApiError::User` code of a user error; `None` for the three
/// outcomes that are not user errors.
pub open spec fn spec_user_code(e: Error) -> Option<u16> {
    match e {
        Error::NotAccountHash => Some(0u16),
        Error::MintMetadataNotValid => Some(1u16),
        Error::NoTokensFound => Some(2u16),
        Error::NotOwnerOfHolderId => Some(3u16),
        Error::NotEnoughTokens => Some(4u16),
        Error::ApprovedHolderDoesentExist => Some(5u16),
        Error::NotEnoughAmount => Some(6u16),
        Error::MetadataDoesentExist => Some(7u16),
        Error::NotEnoughBalance => Some(8u16),
        Error::TransferFailed => Some(9u16),
        Error::HolderDoesentExist => Some(10u16),
        Error::ApprovedListDoesentExist => Some(11u16),
        Error::EmptyOwnerShipList => Some(12u16),
        Error::PublisherHasNoApprovedHolders => Some(13u16),
        Error::ProducerHasNoApprovedHolders => Some(15u16),
        Error::EmptyRequestCnt => Some(17u16),
        Error::AccessDenied => Some(18u16),
        Error::EmptyU64List => Some(19u16),
        Error::MintHolderNotFound => Some(21u16),
        Error::InvalidSignature => Some(23u16),
        Error::InvalidTimestamp => Some(24u16),
        Error::ValueMissing => None,
        Error::ArithmeticOverflow => None,
        Error::MalformedData => None,
    }
}

impl Error {
    /// The code under which the contract reverts with `ApiError::User`.
    pub fn user_code(&self) -> (r: Option<u16>)
        ensures
            r == spec_user_code(*self),
    {
        match self {
            Error::NotAccountHash => Some(0),
            Error::MintMetadataNotValid => Some(1),
            Error::NoTokensFound => Some(2),
            Error::NotOwnerOfHolderId => Some(3),
            Error::NotEnoughTokens => Some(4),
            Error::ApprovedHolderDoesentExist => Some(5),
            Error::NotEnoughAmount => Some(6),
            Error::MetadataDoesentExist => Some(7),
            Error::NotEnoughBalance => Some(8),
            Error::TransferFailed => Some(9),
            Error::HolderDoesentExist => Some(10),
            Error::ApprovedListDoesentExist => Some(11),
            Error::EmptyOwnerShipList => Some(12),
            Error::PublisherHasNoApprovedHolders => Some(13),
            Error::ProducerHasNoApprovedHolders => Some(15),
            Error::EmptyRequestCnt => Some(17),
            Error::AccessDenied => Some(18),
            Error::EmptyU64List => Some(19),
            Error::MintHolderNotFound => Some(21),
            Error::InvalidSignature => Some(23),
            Error::InvalidTimestamp => Some(24),
            Error::ValueMissing => None,
            Error::ArithmeticOverflow => None,
            Error::MalformedData => None,
        }
    }
}

} // verus!
