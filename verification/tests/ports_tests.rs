use serial_link::ports::{select_port, suffix_key};

fn names(list: &[&str]) -> Vec<Vec<u8>> {
    list.iter().map(|s| s.as_bytes().to_vec()).collect()
}

#[test]
fn suffix_key_values() {
    // The ones digit is unweighted; each successive digit is weighted by
    // ten times its position index.
    assert_eq!(suffix_key(b"COM9"), 9);
    assert_eq!(suffix_key(b"COM3"), 3);
    assert_eq!(suffix_key(b"COM10"), 10);
    assert_eq!(suffix_key(b"COM99"), 9 + 90);
    assert_eq!(suffix_key(b"ttyUSB0"), 0);
    assert_eq!(suffix_key(b"ttyUSB12"), 2 + 10);
}

#[test]
fn non_numeric_tail_scores_zero() {
    assert_eq!(suffix_key(b"ttyS"), 0);
    assert_eq!(suffix_key(b"1x"), 0);
    assert_eq!(suffix_key(b""), 0);
}

#[test]
fn equal_length_names_ranked_by_suffix_key() {
    // Among the equal-length candidates the maximal key wins: COM9
    // outranks COM3 and COM1; COM10 is longer and loses the length
    // tiebreak first.
    let list = names(&["COM1", "COM3", "COM9", "COM10"]);
    let chosen = select_port(&list, b"").unwrap();
    assert_eq!(list[chosen], b"COM9");
}

#[test]
fn shortest_name_wins_before_suffix() {
    let list = names(&["ttyUSB99", "COM2"]);
    let chosen = select_port(&list, b"").unwrap();
    assert_eq!(list[chosen], b"COM2");
}

#[test]
fn tie_on_length_and_key_takes_first() {
    let list = names(&["aa7", "bb7"]);
    let chosen = select_port(&list, b"").unwrap();
    assert_eq!(chosen, 0);
}

#[test]
fn empty_list_selects_nothing() {
    assert_eq!(select_port(&Vec::new(), b""), None);
}

#[test]
fn hint_found_is_taken() {
    let list = names(&["COM1", "COM3", "COM9"]);
    let chosen = select_port(&list, b"COM3").unwrap();
    assert_eq!(list[chosen], b"COM3");
}

#[test]
fn hint_absent_selects_nothing() {
    let list = names(&["COM1", "COM3"]);
    assert_eq!(select_port(&list, b"COM7"), None);
}
