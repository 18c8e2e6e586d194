use cloudflow::error::{Error, ErrorKind, ErrorOrigin};

#[test]
pub fn error_from_i32_invalid() {
    let mut err = Error::from_int_err(i32::MIN + 1);
    assert_eq!(err.0, ErrorOrigin::Other);
    assert_eq!(err.1, ErrorKind::Unknown);

    err = Error::from_int_err(-1);
    assert_eq!(err.0, ErrorOrigin::Other);
    assert_eq!(err.1, ErrorKind::Unknown);

    err = Error::from_int_err(-2);
    assert_eq!(err.0, ErrorOrigin::Other);
    assert_eq!(err.1, ErrorKind::Unknown);

    err = Error::from_int_err(-3);
    assert_eq!(err.0, ErrorOrigin::Other);
    assert_eq!(err.1, ErrorKind::Unknown);
}

#[test]
pub fn error_to_from_i32() {
    let err = Error::from_int_err(Error(ErrorOrigin::Other, ErrorKind::InvalidArgument).into_int_err());
    assert_eq!(err.0, ErrorOrigin::Other);
    assert_eq!(err.1, ErrorKind::InvalidArgument);
}

#[test]
fn int_err_exact_value() {
    // origin Backend has code 0, kind Uninitialized has code 0: -(1 + 16 + 65536)
    assert_eq!(Error(ErrorOrigin::Backend, ErrorKind::Uninitialized).into_int_err(), -65553);
    // origin Other (8), kind Unknown (20): -(1 + 9 * 16 + 21 * 65536)
    assert_eq!(Error(ErrorOrigin::Other, ErrorKind::Unknown).into_int_err(), -(1 + 9 * 16 + 21 * 65536));
}

#[test]
fn int_err_round_trip_all() {
    let origins = [
        ErrorOrigin::Backend,
        ErrorOrigin::Node,
        ErrorOrigin::Leaf,
        ErrorOrigin::Branch,
        ErrorOrigin::Read,
        ErrorOrigin::Write,
        ErrorOrigin::Rpc,
        ErrorOrigin::Io,
        ErrorOrigin::Other,
    ];
    let kinds = [
        ErrorKind::Uninitialized,
        ErrorKind::NotSupported,
        ErrorKind::NotImplemented,
        ErrorKind::Configuration,
        ErrorKind::Offset,
        ErrorKind::InvalidArgument,
        ErrorKind::NotFound,
        ErrorKind::OutOfBounds,
        ErrorKind::InvalidPath,
        ErrorKind::ReadOnly,
        ErrorKind::UnableToReadDir,
        ErrorKind::UnableToReadDirEntry,
        ErrorKind::UnableToReadFile,
        ErrorKind::UnableToCreateDirectory,
        ErrorKind::UnableToWriteFile,
        ErrorKind::UnableToSeekFile,
        ErrorKind::VersionMismatch,
        ErrorKind::AlreadyExists,
        ErrorKind::PluginNotFound,
        ErrorKind::InvalidAbi,
        ErrorKind::Unknown,
    ];
    for o in origins.iter() {
        for k in kinds.iter() {
            let e = Error(*o, *k);
            let code = e.into_int_err();
            assert!(code < 0);
            assert_eq!(Error::from_int_err(code), e);
        }
    }
}

#[test]
fn error_texts() {
    assert_eq!(ErrorOrigin::Backend.to_str(), "backend");
    assert_eq!(ErrorOrigin::Other.to_str(), "other");
    assert_eq!(ErrorKind::Uninitialized.to_str(), "unitialized");
    assert_eq!(ErrorKind::InvalidAbi.to_str(), "invalid plugin ABI");
    assert_eq!(ErrorKind::ReadOnly.to_str(), "trying to write to a read only resource");
    let e = Error(ErrorOrigin::Node, ErrorKind::NotFound);
    assert_eq!(e.as_str(), "not found");
    assert_eq!(e.into_str(), "not found");
    assert_eq!(e.to_display_string(), "node: not found");
}

#[test]
fn error_conversions() {
    assert_eq!(Error::from(ErrorOrigin::Read), Error(ErrorOrigin::Read, ErrorKind::Unknown));
    assert_eq!(Error::from(ErrorKind::NotFound), Error(ErrorOrigin::Other, ErrorKind::NotFound));
    assert_eq!(Error::from_origin(ErrorOrigin::Leaf), Error(ErrorOrigin::Leaf, ErrorKind::Unknown));
    assert_eq!(Error::from_kind(ErrorKind::Offset), Error(ErrorOrigin::Other, ErrorKind::Offset));
}
