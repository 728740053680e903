use optopodi::google_sheets::{get_a1_notation, get_column_notation};

#[test]
fn test_column_notation_single_letters() {
    assert_eq!(get_column_notation(0), "A");
    assert_eq!(get_column_notation(3), "D");
    assert_eq!(get_column_notation(25), "Z");
}

#[test]
fn test_column_notation_double_letters() {
    assert_eq!(get_column_notation(26), "AA");
    assert_eq!(get_column_notation(27), "AB");
    assert_eq!(get_column_notation(52), "BA");
    assert_eq!(get_column_notation(701), "ZZ");
}

#[test]
fn test_column_notation_triple_letters() {
    assert_eq!(get_column_notation(702), "AAA");
    assert_eq!(get_column_notation(703), "AAB");
    assert_eq!(get_column_notation(1567), "BHH");
    assert_eq!(get_column_notation(720), "AAS");
    assert_eq!(get_column_notation(14838), "UXS");
    assert_eq!(get_column_notation(17439), "YTT");
    assert_eq!(get_column_notation(18276), "ZZY");
    // the highest column that can be written
    assert_eq!(get_column_notation(18277), "ZZZ");
}

#[test]
fn test_a1_notation_001() {
    assert_eq!(
        get_a1_notation(Some(0), Some(0), Some(0), Some(0)),
        String::from("A1:A1")
    );
}

#[test]
fn test_a1_notation_002() {
    assert_eq!(
        get_a1_notation(Some(0), None, Some(0), Some(0)),
        String::from("A1:A")
    );
    assert_eq!(
        get_a1_notation(Some(0), Some(0), Some(0), None),
        String::from("A1:A")
    );
}

#[test]
fn test_a1_notation_003() {
    assert_eq!(
        get_a1_notation(Some(0), Some(1), Some(1), Some(4)),
        String::from("A2:B5")
    );
}

#[test]
fn test_a1_notation_004() {
    assert_eq!(
        get_a1_notation(Some(0), None, Some(3), None),
        String::from("A:D")
    );
}

#[test]
fn test_a1_notation_005() {
    assert_eq!(
        get_a1_notation(None, Some(9), Some(3), Some(17)),
        String::from("10:D18"),
    );

    assert_eq!(
        get_a1_notation(None, Some(9), None, Some(17)),
        String::from("10:18"),
    );
}
