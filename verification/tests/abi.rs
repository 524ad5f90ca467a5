use freshos::abi::{Error, Message, Rights};

#[test]
fn errors_have_their_codes() {
    assert_eq!(Error::NoSuchSyscall.code(), -1);
    assert_eq!(Error::from_code(-2), Error::NoSuchHandle);
    assert_eq!(Error::from_code(-999), Error::Invalid);
}

#[test]
fn rights_combine() {
    let both = Rights::send().union(Rights::recv());
    assert!(both.contains(Rights::send()));
    assert!(!both.without(Rights::recv()).contains(Rights::recv()));
    assert!(!Rights::none().contains(Rights::send()));
}

#[test]
fn names_round_trip_through_a_message() {
    let m = Message::new(101).with_name("pulse");
    let (bytes, len) = m.name();
    assert_eq!(len, 5);
    assert_eq!(&bytes[..len], b"pulse");
    assert_eq!(m.tag, 101);
}
