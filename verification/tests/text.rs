use pnml::text::{decimal_string, numbered_string};
use pnml::{PNMLName, PNMLID};

#[test]
fn decimal_numerals() {
    assert_eq!(decimal_string(0), "0");
    assert_eq!(decimal_string(7), "7");
    assert_eq!(decimal_string(9), "9");
    assert_eq!(decimal_string(10), "10");
    assert_eq!(decimal_string(1234567890), "1234567890");
    assert_eq!(decimal_string(100200), "100200");
    assert_eq!(decimal_string(usize::MAX), usize::MAX.to_string());
}

#[test]
fn decimal_numerals_agree_with_the_standard_library() {
    let mut n: usize = 0;
    while n < 3000 {
        assert_eq!(decimal_string(n), n.to_string());
        n += 1;
    }
}

#[test]
fn numbered_names() {
    assert_eq!(numbered_string("", "n", 0), "n0");
    assert_eq!(numbered_string("n3", "_p", 12), "n3_p12");
    assert_eq!(numbered_string("n3_p12", "-", 4), "n3_p12-4");
    assert_eq!(numbered_string("n3_p12-4", "_o", 101), "n3_p12-4_o101");
}

#[test]
fn names_and_ids_are_made_of_text() {
    let id = PNMLID::new("n0_p0");
    assert_eq!(id, PNMLID::new("n0_p0"));
    assert_ne!(id, PNMLID::new("n0_p1"));
    assert_eq!(id.clone(), id);
    assert_eq!(format!("{:?}", PNMLName::new("x").clone()), format!("{:?}", PNMLName::new("x")));
    assert_ne!(format!("{:?}", PNMLName::new("x")), format!("{:?}", PNMLName::from(None)));
    assert_eq!(format!("{:?}", PNMLName::from(Some("x"))), format!("{:?}", PNMLName::new("x")));
}
