use kovre::dpapi::{decrypt, encrypt, DpapiError};

#[test]
fn protection_is_reported_unavailable_here() {
    assert_eq!(encrypt(b"my-smb-password-42!").unwrap_err(), DpapiError::Unavailable);
    assert_eq!(decrypt(&[0u8; 32]).unwrap_err(), DpapiError::Unavailable);
    assert_eq!(DpapiError::Unavailable.message(), "DPAPI is only available on Windows");
}
