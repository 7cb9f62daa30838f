use backrun::address::Address;
use backrun::owner::{check_owner, owner_needed, Ownership};

fn addr(b: u8) -> Address {
    Address { bytes: [b; 20] }
}

#[test]
fn owner_is_compared_with_the_wallet() {
    let mut reply = vec![0u8; 12];
    reply.extend([7u8; 20]);
    assert!(matches!(check_owner(&reply, &addr(7)), Ownership::Owner));
    match check_owner(&reply, &addr(8)) {
        Ownership::Foreign(owner) => assert_eq!(owner.bytes, [7u8; 20]),
        _ => panic!("the wallet is not the owner"),
    }
    assert!(matches!(check_owner(&reply[..31], &addr(7)), Ownership::Unreadable));
    assert!(matches!(check_owner(&[], &addr(7)), Ownership::Unreadable));
}

#[test]
fn contract_without_code_is_not_asked() {
    assert!(!owner_needed(&[]));
    assert!(owner_needed(&[0x60]));
}
