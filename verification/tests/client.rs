use section_core::client::{
    Blob, BlobAddress, BlobRead, BlobWrite, CmdError, DataError, Message, MessageId, PublicKey,
    QueryResponse, TransferError, TryFromError,
};
use section_core::name::Name;

fn c_name(first: u8) -> Name {
    let mut bytes = [0u8; 32];
    bytes[0] = first;
    Name { bytes }
}

#[test]
fn try_from() {
    let key = PublicKey::Bls([3u8; 48]);
    let i_data = Blob::Public { address: BlobAddress::Public(c_name(1)), value: vec![1, 3, 1, 4] };
    let e = DataError::AccessDenied(key);
    assert_eq!(Ok(i_data.clone()), QueryResponse::GetBlob(Ok(i_data.clone())).into_blob());
    assert_eq!(Err(TryFromError::Response(e)), QueryResponse::GetBlob(Err(e)).into_blob());
    assert_eq!(Err(TryFromError::WrongType), QueryResponse::GetBalance(Ok(1)).into_blob());

    assert_eq!(Ok(10), QueryResponse::GetMapVersion(Ok(10)).into_u64());
    assert_eq!(Ok(11), QueryResponse::GetBalance(Ok(11)).into_u64());
    assert_eq!(Ok(12), QueryResponse::GetStoreCost(Ok(12)).into_u64());
    assert_eq!(Err(TryFromError::Response(e)), QueryResponse::GetMapVersion(Err(e)).into_u64());
    assert_eq!(Err(TryFromError::WrongType), QueryResponse::GetBlob(Ok(i_data)).into_u64());

    let keys = vec![vec![1u8], vec![10u8]];
    assert_eq!(Ok(keys.clone()), QueryResponse::ListMapKeys(Ok(keys)).into_keys());
    assert_eq!(Err(TryFromError::Response(e)), QueryResponse::ListMapKeys(Err(e)).into_keys());
    assert_eq!(Err(TryFromError::WrongType), QueryResponse::GetBalance(Ok(1)).into_keys());
}

#[test]
fn blob_requests_say_where_they_go_and_how_they_fail() {
    let owner = PublicKey::Ed25519([9u8; 32]);
    let private = Blob::Private { address: BlobAddress::Private(c_name(2)), value: vec![1], owner };
    let public = Blob::Public { address: BlobAddress::Public(c_name(3)), value: vec![2] };
    assert_eq!(private.name(), c_name(2));
    assert_eq!(private.owner(), Some(owner));
    assert_eq!(public.owner(), None);

    let read = BlobRead::Get(BlobAddress::Public(c_name(3)));
    assert_eq!(read.dst_address(), c_name(3));
    assert_eq!(read.error(DataError::NoSuchData), QueryResponse::GetBlob(Err(DataError::NoSuchData)));

    let write = BlobWrite::New(private);
    assert_eq!(write.dst_address(), c_name(2));
    assert_eq!(write.owner(), Some(owner));
    assert_eq!(write.error(DataError::DataExists), CmdError::Data(DataError::DataExists));
    let delete = BlobWrite::DeletePrivate(BlobAddress::Private(c_name(4)));
    assert_eq!(delete.dst_address(), c_name(4));
    assert_eq!(delete.owner(), None);
    assert_ne!(
        CmdError::Transfer(TransferError::TransferValidation(DataError::InvalidOperation)),
        CmdError::Transfer(TransferError::TransferRegistration(DataError::InvalidOperation))
    );
}

#[test]
fn a_message_is_marked_by_its_id() {
    let id = MessageId(c_name(7));
    let other = MessageId(c_name(8));
    let query = Message::Query { query: BlobRead::Get(BlobAddress::Public(c_name(3))), id };
    assert_eq!(query.id(), id);
    let response = Message::QueryResponse {
        response: QueryResponse::GetBalance(Ok(5)),
        id: other,
        correlation_id: id,
    };
    assert_eq!(response.id(), other);
    let error = Message::CmdError {
        error: CmdError::Data(DataError::NoSuchEntry),
        id,
        correlation_id: other,
    };
    assert_eq!(error.id(), id);
    let cmd = Message::Cmd { cmd: BlobWrite::DeletePrivate(BlobAddress::Private(c_name(4))), id: other };
    assert_eq!(cmd.id(), other);
}
