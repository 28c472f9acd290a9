//! The lock of one wallet.

use copybot_hot::lease::lease_path;

#[test]
fn funder_identity_must_be_a_complete_address() {
    assert!(lease_path("0x1234").is_err());
    assert_eq!(
        lease_path("0x1234").unwrap_err(),
        "cannot derive execution lease from funder \"0x1234\""
    );
}

#[test]
fn an_address_names_its_own_file() {
    let a = lease_path("0xF39FD6E51AAD88F6F4CE6AB8827279CFFFB92266").unwrap();
    assert_eq!(a, lease_path("f39fd6e51aad88f6f4ce6ab8827279cfffb92266").unwrap());
    assert!(a.contains("f39fd6e51aad88f6f4ce6ab8827279cfffb92266"), "{a}");
    assert_ne!(a, lease_path("0x7e5f4552091a69125d5dfcb7b8c2659029395bdf").unwrap());
    assert!(lease_path("0xg39fd6e51aad88f6f4ce6ab8827279cfffb92266").is_err());
}
