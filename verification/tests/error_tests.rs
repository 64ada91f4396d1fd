use stress_client::error::{ClientError, LoginError};
use stress_client::packet::SCPacketType;

#[test]
fn client_errors_have_texts() {
    assert_eq!(ClientError::ReadZero.text(), "Read zero byte");
    assert_eq!(
        ClientError::PacketTooSmall(1).text(),
        "a packet size was less than 2. It was "
    );
    assert_eq!(ClientError::NoTypeField.text(), "packet has no type field");
    assert_eq!(ClientError::ClockBeforeEpoch.text(), "the clock stands before 1970");
    assert_eq!(ClientError::DelayLogClosed.text(), "sending on a closed channel");
}

#[test]
fn login_errors_have_texts() {
    assert_eq!(
        LoginError::NotLogin(SCPacketType::SC_CHAT).text(),
        "the server has sent a packet that isn't a login packet. It was "
    );
    assert_eq!(
        LoginError::UnknownType(9).text(),
        "the server has sent unknown packet type "
    );
}
