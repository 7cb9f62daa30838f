use backrun::address::{sorted_pair, Address};
use backrun::config::{DEFAULT_FACTORIES_RAW, DEFAULT_ROUTERS_RAW, DEFAULT_TOKEN_LIST_RAW};
use backrun::registry::{
    merge_pair_registry, parse_dex_factories, parse_known_pairs, parse_known_routers,
    parse_token_list, PairBook,
};

const P1: &str = "0x1111111111111111111111111111111111111111";
const P2: &str = "0x2222222222222222222222222222222222222222";
const T0: &str = "0xAAAAaaaaAAAAaaaaAAAAaaaaAAAAaaaaAAAAaaaa";
const T1: &str = "bbbbbbbbbbbbbbbbbbbbbbbbbbbbbbbbbbbbbbbb";

fn addr(b: u8) -> Address {
    Address { bytes: [b; 20] }
}

fn pools(book: &PairBook, a: u8, b: u8) -> Vec<(u8, String)> {
    match book.registry.get(&sorted_pair(addr(a), addr(b))) {
        Some(list) => list.iter().map(|l| (l.pair.bytes[0], l.dex.clone())).collect(),
        None => vec![],
    }
}

#[test]
fn pairs_are_listed_under_their_tokens() {
    let raw = format!("{P1}:{T0}:{T1}:quick,{P2}:{T1}:{T0}:sushi");
    let book = parse_known_pairs(&raw);
    assert_eq!(book.known.len(), 2);
    assert!(book.known.contains_key(&addr(0x11)));
    assert_eq!(book.dex.get(&addr(0x22)), Some(&"sushi".to_string()));
    let expected = vec![(0x11, "quick".to_string()), (0x22, "sushi".to_string())];
    assert_eq!(pools(&book, 0xaa, 0xbb), expected);
    assert_eq!(book.registry.len(), 1);
}

#[test]
fn invalid_pairs_are_ignored() {
    for entry in [
        "".to_string(),
        ",,".to_string(),
        format!("{P1}:{T0}:{T1}"),
        format!("{P1}:{T0}:{T1}:"),
        format!("{P1}:{T0}:{T1}:quick:more"),
        format!("{P1}:{T0}:0x12:quick"),
        format!(" {P1}:{T0}:{T1}:quick"),
        format!("{P1}:{T0}:{T1}x:quick"),
        format!("0xgg11111111111111111111111111111111111111:{T0}:{T1}:quick"),
    ] {
        let book = parse_known_pairs(&entry);
        assert_eq!((book.known.len(), book.registry.len(), book.dex.len()), (0, 0, 0));
    }
    let mixed = parse_known_pairs(&format!("rubbish,{P1}:{T0}:{T1}:quick,"));
    assert_eq!(mixed.known.len(), 1);
}

#[test]
fn last_exchange_of_a_pair_holds() {
    let book = parse_known_pairs(&format!("{P1}:{T0}:{T1}:quick,{P1}:{T0}:{T1}:sushi"));
    assert_eq!(book.known.len(), 1);
    assert_eq!(book.dex.get(&addr(0x11)), Some(&"sushi".to_string()));
    assert_eq!(pools(&book, 0xaa, 0xbb).len(), 2);
}

#[test]
fn routers_name_their_exchange() {
    let routers = parse_known_routers(&format!("{P1}:quick,{P2}:,x:sushi,{P2}:a:b,{P1}:ape"));
    assert_eq!(routers.len(), 1);
    assert_eq!(routers.get(&addr(0x11)), Some(&"ape".to_string()));
    let known = parse_known_routers(DEFAULT_ROUTERS_RAW);
    assert_eq!(known.len(), 3);
    assert_eq!(known.value_at(0), "quickswap");
    assert_eq!(known.key_at(0).bytes[0], 0xa5);
    assert_eq!(known.key_at(2).bytes[19], 0x07);
}

#[test]
fn exchanges_name_their_factory() {
    let factories = parse_dex_factories(&format!("quick:{P1},:{P2},sushi:y,ape:{P1}:{P2},quick:{P2}"));
    assert_eq!(factories.len(), 1);
    assert_eq!(factories.get(&"quick".to_string()).map(|a| a.bytes[0]), Some(0x22));
    let known = parse_dex_factories(DEFAULT_FACTORIES_RAW);
    assert_eq!(known.len(), 3);
    assert_eq!(known.get(&"apeswap".to_string()).map(|a| a.bytes[0]), Some(0xcf));
}

#[test]
fn tokens_may_have_blanks_around_them() {
    let tokens = parse_token_list(&format!(" {T0} ,{T1},,junk,\t{T0}\n"));
    let first: Vec<u8> = tokens.iter().map(|t| t.bytes[0]).collect();
    assert_eq!(first, vec![0xaa, 0xbb, 0xaa]);
    assert_eq!(parse_token_list(DEFAULT_TOKEN_LIST_RAW).len(), 6);
    assert_eq!(parse_token_list(DEFAULT_TOKEN_LIST_RAW)[0].bytes[0], 0x0d);
    assert!(parse_token_list("").is_empty());
    assert_eq!(parse_token_list(&T0.replace("0x", "0X")).len(), 1);
}

#[test]
fn merging_joins_without_repeating() {
    let mut book = parse_known_pairs(&format!("{P1}:{T0}:{T1}:quick"));
    let extra = parse_known_pairs(&format!(
        "{P1}:{T0}:{T1}:quick,{P2}:{T0}:{T1}:sushi,{P2}:{T0}:{P1}:sushi,{P1}:{T0}:{T1}:ape"
    ));
    merge_pair_registry(&mut book, extra);
    assert_eq!(book.known.len(), 2);
    assert_eq!(book.dex.get(&addr(0x11)), Some(&"ape".to_string()));
    let expected = vec![
        (0x11, "quick".to_string()),
        (0x22, "sushi".to_string()),
        (0x11, "ape".to_string()),
    ];
    assert_eq!(pools(&book, 0xaa, 0xbb), expected);
    assert_eq!(pools(&book, 0xaa, 0x11), vec![(0x22, "sushi".to_string())]);
}

#[test]
fn known_pools_are_those_with_an_exchange() {
    let mut book = parse_known_pairs(&format!("{P1}:{T0}:{T1}:quick,x"));
    book.add(addr(7), addr(1), addr(2), "sushi".to_string());
    merge_pair_registry(&mut book, parse_known_pairs(&format!("{P2}:{T0}:{P1}:ape")));
    assert_eq!(book.known.len(), book.dex.len());
    for i in 0..book.known.len() {
        assert!(book.dex.contains_key(book.known.key_at(i)));
    }
    let mut listed = 0;
    for i in 0..book.registry.len() {
        for listing in book.registry.value_at(i) {
            assert!(book.known.contains_key(&listing.pair));
            listed += 1;
        }
    }
    assert_eq!(listed, 3);
}
