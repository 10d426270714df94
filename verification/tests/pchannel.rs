use perlrs::pchannel::{
    dispatch_method, pselect_check, pselect_result, recv_outcome, send_outcome, ChannelEnd,
    ChannelOp,
};
use perlrs::value::{ErrorKind, PerlValue};

#[test]
fn dispatch_send_and_recv() {
    assert!(matches!(
        dispatch_method(ChannelEnd::Sender, "send", 1, 3),
        Some(Ok(ChannelOp::Send))
    ));
    assert!(matches!(
        dispatch_method(ChannelEnd::Receiver, "recv", 0, 3),
        Some(Ok(ChannelOp::Recv))
    ));
    assert!(dispatch_method(ChannelEnd::Receiver, "send", 1, 3).is_none());
    assert!(dispatch_method(ChannelEnd::Other, "recv", 0, 3).is_none());
    assert!(dispatch_method(ChannelEnd::Sender, "close", 0, 3).is_none());
}

#[test]
fn dispatch_wrong_arity_errors() {
    match dispatch_method(ChannelEnd::Sender, "send", 2, 7) {
        Some(Err(e)) => {
            assert_eq!(e.kind, ErrorKind::Runtime);
            assert_eq!(e.line, 7);
            assert_eq!(e.message, "send() on pchannel tx expects exactly one value");
        }
        _ => panic!("expected an error"),
    }
    match dispatch_method(ChannelEnd::Receiver, "recv", 1, 9) {
        Some(Err(e)) => assert_eq!(e.message, "recv() on pchannel rx takes no arguments"),
        _ => panic!("expected an error"),
    }
}

#[test]
fn outcomes() {
    assert!(matches!(send_outcome(true), PerlValue::Integer(1)));
    assert!(matches!(send_outcome(false), PerlValue::Integer(0)));
    assert!(matches!(recv_outcome(None), PerlValue::Undef));
    assert!(matches!(recv_outcome(Some(PerlValue::Integer(5))), PerlValue::Integer(5)));
}

#[test]
fn pselect_checks_and_results() {
    assert_eq!(
        pselect_check(&[], 1).err().unwrap().message,
        "pselect() expects at least one pchannel receiver"
    );
    assert_eq!(
        pselect_check(&[ChannelEnd::Receiver, ChannelEnd::Sender], 1)
            .err()
            .unwrap()
            .message,
        "pselect() arguments must be pchannel receivers"
    );
    assert!(pselect_check(&[ChannelEnd::Receiver, ChannelEnd::Receiver], 1).is_ok());
    match pselect_result(None) {
        PerlValue::Array(a) => {
            assert!(matches!(a[0], PerlValue::Undef));
            assert!(matches!(a[1], PerlValue::Integer(-1)));
        }
        _ => panic!("expected a list"),
    }
    match pselect_result(Some((2, Some(PerlValue::Integer(9))))) {
        PerlValue::Array(a) => {
            assert!(matches!(a[0], PerlValue::Integer(9)));
            assert!(matches!(a[1], PerlValue::Integer(2)));
        }
        _ => panic!("expected a list"),
    }
}
