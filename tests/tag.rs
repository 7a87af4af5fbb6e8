use dmm::tag::{Binary, Decimal, Tag, ONE, SEP, ZERO};

fn tag_of<T: Tag>(n: usize) -> String {
    let mut s = String::new();
    T::push_tag(n, &mut s);
    s
}

#[test]
fn binary_tag_text() {
    let expected: String = [SEP, ONE, ZERO, ONE, SEP].iter().collect();
    assert_eq!(tag_of::<Binary>(5), expected);
    let zero: String = [SEP, ZERO, SEP].iter().collect();
    assert_eq!(tag_of::<Binary>(0), zero);
}

#[test]
fn decimal_tag_text() {
    assert_eq!(tag_of::<Decimal>(42), format!("{SEP}42{SEP}"));
    assert_eq!(tag_of::<Decimal>(0), format!("{SEP}0{SEP}"));
}

#[test]
fn push_tag_appends() {
    let mut s = String::from("firefox");
    Binary::push_tag(2, &mut s);
    let expected: String = "firefox".chars().chain([SEP, ONE, ZERO, SEP]).collect();
    assert_eq!(s, expected);
}

#[test]
fn round_trip_both_encodings() {
    for i in 0..100000usize {
        assert_eq!(Binary::pop_tag(&tag_of::<Binary>(i)), Some((i, "")));
        assert_eq!(Decimal::pop_tag(&tag_of::<Decimal>(i)), Some((i, "")));
    }
}

#[test]
fn round_trip_largest_index() {
    assert_eq!(Binary::pop_tag(&tag_of::<Binary>(usize::MAX)), Some((usize::MAX, "")));
    assert_eq!(Decimal::pop_tag(&tag_of::<Decimal>(usize::MAX)), Some((usize::MAX, "")));
}

#[test]
fn pop_tag_after_name_and_remainder() {
    let line = format!("htop{}", tag_of::<Binary>(3));
    assert_eq!(Binary::pop_tag(&line), Some((3, "")));
    let numbered = format!("{}: htop", tag_of::<Decimal>(12));
    assert_eq!(Decimal::pop_tag(&numbered), Some((12, ": htop")));
}

#[test]
fn decode_never_fails_on_free_text() {
    assert_eq!(Binary::pop_tag(""), None);
    assert_eq!(Decimal::pop_tag(""), None);
    assert_eq!(Binary::pop_tag("echo hello"), None);
    let one_marker = format!("echo {SEP} hi");
    assert_eq!(Binary::pop_tag(&one_marker), None);
    assert_eq!(Decimal::pop_tag(&one_marker), None);
    let empty_body = format!("a{SEP}{SEP}b");
    assert_eq!(Decimal::pop_tag(&empty_body), None);
    let three = format!("{SEP}7{SEP}x{SEP}");
    assert_eq!(Decimal::pop_tag(&three), Some((7, format!("x{SEP}").as_str())));
    let bad_body = format!("{SEP}7a{SEP}");
    assert_eq!(Decimal::pop_tag(&bad_body), None);
    let wrong_alphabet = format!("{SEP}{ZERO}{SEP}");
    assert_eq!(Decimal::pop_tag(&wrong_alphabet), None);
}

#[test]
fn decode_rejects_overflow() {
    let too_big = format!("{SEP}18446744073709551616{SEP}");
    assert_eq!(Decimal::pop_tag(&too_big), None);
    let bits: String = std::iter::once(SEP)
        .chain(std::iter::once(ONE))
        .chain(std::iter::repeat(ZERO).take(64))
        .chain(std::iter::once(SEP))
        .collect();
    assert_eq!(Binary::pop_tag(&bits), None);
}

#[test]
fn convert_tag_rules() {
    assert_eq!(Decimal::convert_tag("123"), Some(123));
    assert_eq!(Decimal::convert_tag("007"), Some(7));
    assert_eq!(Decimal::convert_tag("+5"), None);
    assert_eq!(Decimal::convert_tag(""), None);
    assert_eq!(Decimal::convert_tag(&format!("{SEP}{SEP}9{SEP}")), Some(9));
    let body: String = [ONE, ONE, ZERO].iter().collect();
    assert_eq!(Binary::convert_tag(&body), Some(6));
    assert_eq!(Binary::convert_tag("110"), None);
}
