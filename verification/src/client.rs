//! What clients and the nodes that keep their data say to each other, as far as the section
//! core passes it on: requests for blobs, the responses to queries, and the errors.

use vstd::prelude::*;
use crate::name::Name;

verus! {

/// The key of the owner of data or of whoever asks for it.
#[derive(Clone, Copy, Debug, PartialEq, Eq)]
pub enum PublicKey {
    Ed25519([u8; 32]),
    Bls([u8; 48]),
    BlsShare([u8; 48]),
}

/// Why the network could not do what a client asked.
#[derive(Clone, Copy, Debug, PartialEq, Eq)]
pub enum DataError {
    /// The key may not do this to the data.
    AccessDenied(PublicKey),
    /// There is no data at the address.
    NoSuchData,
    /// There is data at the address already.
    DataExists,
    /// The data holds no such entry.
    NoSuchEntry,
    /// The request makes no sense for the data.
    InvalidOperation,
}

/// The error of a command, by the kind of command.
#[derive(Clone, Copy, Debug, PartialEq, Eq)]
pub enum CmdError {
    Data(DataError),
    Transfer(TransferError),
}

/// The error of a transfer, by the step that failed.
#[derive(Clone, Copy, Debug, PartialEq, Eq)]
pub enum TransferError {
    /// The transfer could not be validated.
    TransferValidation(DataError),
    /// The transfer could not be registered.
    TransferRegistration(DataError),
}

/// Why a response could not be read as the value that was hoped for.
#[derive(Clone, Copy, Debug, PartialEq, Eq)]
pub enum TryFromError {
    /// The response answers another kind of query.
    WrongType,
    /// The response carries an error.
    Response(DataError),
}

/// Where a blob is kept, and whether everybody may read it.
#[derive(Clone, Copy, Debug, PartialEq, Eq)]
pub enum BlobAddress {
    Private(Name),
    Public(Name),
}

/// A blob: bytes that are kept under a name, for everybody or for an owner.
#[derive(Clone, Debug, PartialEq, Eq)]
pub enum Blob {
    Private { address: BlobAddress, value: Vec<u8>, owner: PublicKey },
    Public { address: BlobAddress, value: Vec<u8> },
}

/// A request to read a blob.
#[derive(Clone, Copy, Debug, PartialEq, Eq)]
pub enum BlobRead {
    Get(BlobAddress),
}

/// A request to change what blobs are kept.
#[derive(Clone, Debug, PartialEq, Eq)]
pub enum BlobWrite {
    /// Keep the blob.
    New(Blob),
    /// Forget the private blob at the address.
    DeletePrivate(BlobAddress),
}

/// The response to a query, by the kind of query.
#[derive(Debug, PartialEq, Eq)]
pub enum QueryResponse {
    /// The blob that was asked for.
    GetBlob(Result<Blob, DataError>),
    /// The version of a map.
    GetMapVersion(Result<u64, DataError>),
    /// The keys of a map.
    ListMapKeys(Result<Vec<Vec<u8>>, DataError>),
    /// The balance of a key.
    GetBalance(Result<u64, DataError>),
    /// What it costs to store data.
    GetStoreCost(Result<u64, DataError>),
}

/// What marks a message, so that answers can name what they answer.
#[derive(Clone, Copy, Debug, PartialEq, Eq)]
pub struct MessageId(pub Name);

/// A message between a client and the network.
#[derive(Debug, PartialEq, Eq)]
pub enum Message {
    /// A request to read.
    Query { query: BlobRead, id: MessageId },
    /// A request to change something.
    Cmd { cmd: BlobWrite, id: MessageId },
    /// The response to a query.
    QueryResponse { response: QueryResponse, id: MessageId, correlation_id: MessageId },
    /// The error of a command.
    CmdError { error: CmdError, id: MessageId, correlation_id: MessageId },
}

impl BlobAddress {
    /// The name that the blob is kept under.
    pub open spec fn spec_name(&self) -> Name {
        match *self {
            BlobAddress::Private(n) => n,
            BlobAddress::Public(n) => n,
        }
    }

    /// The name that the blob is kept under.
    pub fn name(&self) -> (name: Name)
        ensures
            name == self.spec_name(),
    {
        match self {
            BlobAddress::Private(n) => *n,
            BlobAddress::Public(n) => *n,
        }
    }
}

impl Blob {
    /// Where the blob is kept.
    pub open spec fn spec_address(&self) -> BlobAddress {
        match *self {
            Blob::Private { address, .. } => address,
            Blob::Public { address, .. } => address,
        }
    }

    /// The owner of a private blob.
    pub open spec fn spec_owner(&self) -> Option<PublicKey> {
        match *self {
            Blob::Private { owner, .. } => Some(owner),
            Blob::Public { .. } => None,
        }
    }

    /// The name that the blob is kept under.
    pub fn name(&self) -> (name: Name)
        ensures
            name == self.spec_address().spec_name(),
    {
        match self {
            Blob::Private { address, .. } => address.name(),
            Blob::Public { address, .. } => address.name(),
        }
    }

    /// The owner of a private blob.
    pub fn owner(&self) -> (owner: Option<PublicKey>)
        ensures
            owner == self.spec_owner(),
    {
        match self {
            Blob::Private { owner, .. } => Some(*owner),
            Blob::Public { .. } => None,
        }
    }
}

impl BlobRead {
    /// The response that tells of an error in answering this request.
    pub fn error(&self, error: DataError) -> (response: QueryResponse)
        ensures
            response == QueryResponse::GetBlob(Err(error)),
    {
        QueryResponse::GetBlob(Err(error))
    }

    /// The name that the request is to be sent to.
    pub fn dst_address(&self) -> (name: Name)
        ensures
            name == (match *self {
                BlobRead::Get(address) => address.spec_name(),
            }),
    {
        match self {
            BlobRead::Get(address) => address.name(),
        }
    }
}

impl BlobWrite {
    /// The error that tells of a failure of this request.
    pub fn error(&self, error: DataError) -> (cmd_error: CmdError)
        ensures
            cmd_error == CmdError::Data(error),
    {
        CmdError::Data(error)
    }

    /// The name that the request is to be sent to.
    pub fn dst_address(&self) -> (name: Name)
        ensures
            name == (match *self {
                BlobWrite::New(blob) => blob.spec_address(),
                BlobWrite::DeletePrivate(address) => address,
            }).spec_name(),
    {
        match self {
            BlobWrite::New(blob) => blob.name(),
            BlobWrite::DeletePrivate(address) => address.name(),
        }
    }

    /// The owner of the blob that is to be kept.
    pub fn owner(&self) -> (owner: Option<PublicKey>)
        ensures
            owner == (match *self {
                BlobWrite::New(blob) => blob.spec_owner(),
                BlobWrite::DeletePrivate(_) => None,
            }),
    {
        match self {
            BlobWrite::New(blob) => blob.owner(),
            BlobWrite::DeletePrivate(_) => None,
        }
    }
}

impl QueryResponse {
    /// The blob that the response carries.
    pub fn into_blob(self) -> (r: Result<Blob, TryFromError>)
        ensures
            r == (match self {
                QueryResponse::GetBlob(Ok(blob)) => Ok::<Blob, TryFromError>(blob),
                QueryResponse::GetBlob(Err(e)) => Err(TryFromError::Response(e)),
                _ => Err(TryFromError::WrongType),
            }),
    {
        match self {
            QueryResponse::GetBlob(Ok(blob)) => Ok(blob),
            QueryResponse::GetBlob(Err(e)) => Err(TryFromError::Response(e)),
            _ => Err(TryFromError::WrongType),
        }
    }

    /// The number that the response carries: a map's version, a balance or a cost.
    pub fn into_u64(self) -> (r: Result<u64, TryFromError>)
        ensures
            r == (match self {
                QueryResponse::GetMapVersion(Ok(n)) => Ok::<u64, TryFromError>(n),
                QueryResponse::GetBalance(Ok(n)) => Ok(n),
                QueryResponse::GetStoreCost(Ok(n)) => Ok(n),
                QueryResponse::GetMapVersion(Err(e)) => Err(TryFromError::Response(e)),
                QueryResponse::GetBalance(Err(e)) => Err(TryFromError::Response(e)),
                QueryResponse::GetStoreCost(Err(e)) => Err(TryFromError::Response(e)),
                _ => Err(TryFromError::WrongType),
            }),
    {
        match self {
            QueryResponse::GetMapVersion(Ok(n)) => Ok(n),
            QueryResponse::GetBalance(Ok(n)) => Ok(n),
            QueryResponse::GetStoreCost(Ok(n)) => Ok(n),
            QueryResponse::GetMapVersion(Err(e)) => Err(TryFromError::Response(e)),
            QueryResponse::GetBalance(Err(e)) => Err(TryFromError::Response(e)),
            QueryResponse::GetStoreCost(Err(e)) => Err(TryFromError::Response(e)),
            _ => Err(TryFromError::WrongType),
        }
    }

    /// The keys that the response carries.
    pub fn into_keys(self) -> (r: Result<Vec<Vec<u8>>, TryFromError>)
        ensures
            r == (match self {
                QueryResponse::ListMapKeys(Ok(keys)) => Ok::<Vec<Vec<u8>>, TryFromError>(keys),
                QueryResponse::ListMapKeys(Err(e)) => Err(TryFromError::Response(e)),
                _ => Err(TryFromError::WrongType),
            }),
    {
        match self {
            QueryResponse::ListMapKeys(Ok(keys)) => Ok(keys),
            QueryResponse::ListMapKeys(Err(e)) => Err(TryFromError::Response(e)),
            _ => Err(TryFromError::WrongType),
        }
    }
}

impl Message {
    /// What marks the message.
    pub fn id(&self) -> (id: MessageId)
        ensures
            id == (match *self {
                Message::Query { id, .. } => id,
                Message::Cmd { id, .. } => id,
                Message::QueryResponse { id, .. } => id,
                Message::CmdError { id, .. } => id,
            }),
    {
        match self {
            Message::Query { id, .. } => *id,
            Message::Cmd { id, .. } => *id,
            Message::QueryResponse { id, .. } => *id,
            Message::CmdError { id, .. } => *id,
        }
    }
}

} // verus!
