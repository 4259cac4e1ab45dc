use wavcut::catalog::{
    list, parse_nanos, position, position_from, shard_nanos, CatalogError, Shard,
};

fn names(list: &[&str]) -> Vec<String> {
    list.iter().map(|name| name.to_string()).collect()
}

#[test]
fn shards_sort_by_number_not_by_text() {
    let listing = list(&names(&["9.wav", "10.wav", "100.wav"])).unwrap();
    let order: Vec<i64> = listing.iter().map(|shard| shard.nanos).collect();
    assert_eq!(order, vec![9, 10, 100]);
    let listing = list(&names(&["100.wav", "9.wav", "10.wav"])).unwrap();
    assert_eq!(
        listing,
        vec![
            Shard { nanos: 9, entry: 1 },
            Shard { nanos: 10, entry: 2 },
            Shard { nanos: 100, entry: 0 }
        ]
    );
}

#[test]
fn list_passes_over_names_that_are_no_shards() {
    let listing =
        list(&names(&["notes.txt", "7.wav", "x.wav", ".wav", "3.WAV", "5.wav.bak", "-2.wav"]))
            .unwrap();
    assert_eq!(listing, vec![Shard { nanos: -2, entry: 6 }, Shard { nanos: 7, entry: 1 }]);
}

#[test]
fn list_of_no_shard_is_empty_error() {
    assert_eq!(list(&names(&[])), Err(CatalogError::Empty));
    assert_eq!(list(&names(&["a.txt", "b.wav"])), Err(CatalogError::Empty));
}

#[test]
fn list_keeps_listing_order_among_equal_instants() {
    let listing = list(&names(&["05.wav", "4.wav", "5.wav", "+5.wav"])).unwrap();
    assert_eq!(
        listing,
        vec![
            Shard { nanos: 4, entry: 1 },
            Shard { nanos: 5, entry: 0 },
            Shard { nanos: 5, entry: 2 },
            Shard { nanos: 5, entry: 3 }
        ]
    );
}

#[test]
fn parse_nanos_reads_signed_decimal() {
    assert_eq!(parse_nanos("0"), Some(0));
    assert_eq!(parse_nanos("1700000000000000000"), Some(1_700_000_000_000_000_000));
    assert_eq!(parse_nanos("-15"), Some(-15));
    assert_eq!(parse_nanos("+15"), Some(15));
    assert_eq!(parse_nanos("007"), Some(7));
    assert_eq!(parse_nanos("9223372036854775807"), Some(i64::MAX));
    assert_eq!(parse_nanos("-9223372036854775808"), Some(i64::MIN));
}

#[test]
fn parse_nanos_rejects_what_is_no_integer() {
    assert_eq!(parse_nanos(""), None);
    assert_eq!(parse_nanos("-"), None);
    assert_eq!(parse_nanos("+"), None);
    assert_eq!(parse_nanos("12a"), None);
    assert_eq!(parse_nanos(" 12"), None);
    assert_eq!(parse_nanos("1.5"), None);
    assert_eq!(parse_nanos("--1"), None);
    assert_eq!(parse_nanos("9223372036854775808"), None);
    assert_eq!(parse_nanos("-9223372036854775809"), None);
    assert_eq!(parse_nanos("99999999999999999999999999999999999999999999"), None);
    assert_eq!(parse_nanos("１２"), None);
}

#[test]
fn shard_nanos_wants_the_extension() {
    assert_eq!(shard_nanos("42.wav"), Some(42));
    assert_eq!(shard_nanos("42"), None);
    assert_eq!(shard_nanos("42.wave"), None);
    assert_eq!(shard_nanos("wav"), None);
    assert_eq!(shard_nanos("é.wav"), None);
}

#[test]
fn position_finds_first_shard_of_an_instant() {
    let shards = vec![
        Shard { nanos: 4, entry: 1 },
        Shard { nanos: 5, entry: 0 },
        Shard { nanos: 5, entry: 2 },
    ];
    assert_eq!(position(&shards, 5), Some(1));
    assert_eq!(position(&shards, 4), Some(0));
    assert_eq!(position(&shards, 6), None);
    assert_eq!(position_from(&shards, 1, 5), Some(1));
    assert_eq!(position_from(&shards, 2, 5), Some(2));
    assert_eq!(position_from(&shards, 1, 4), None);
    assert_eq!(position_from(&shards, 3, 5), None);
    assert_eq!(position_from(&shards, 9, 5), None);
}
