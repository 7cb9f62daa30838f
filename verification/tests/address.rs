use backrun::address::{sorted_pair, Address};

fn address(first: u8, last: u8) -> Address {
    let mut bytes = [0u8; 20];
    bytes[0] = first;
    bytes[19] = last;
    Address { bytes }
}

#[test]
fn addresses_are_ordered_from_the_first_byte() {
    assert!(address(1, 9).less_than(&address(2, 0)));
    assert!(!address(2, 0).less_than(&address(1, 9)));
    assert!(address(1, 0).less_than(&address(1, 1)));
    assert!(!address(1, 1).less_than(&address(1, 1)));
    assert_eq!(Address::zero().bytes, [0u8; 20]);
}

#[test]
fn pair_is_the_same_in_either_order() {
    let (a, b) = (address(3, 1), address(3, 2));
    let there = sorted_pair(a, b);
    let back = sorted_pair(b, a);
    assert_eq!(there.first.bytes, a.bytes);
    assert_eq!(there.second.bytes, b.bytes);
    assert_eq!(back.first.bytes, a.bytes);
    assert_eq!(back.second.bytes, b.bytes);
}
