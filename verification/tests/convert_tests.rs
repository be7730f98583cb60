use common::convert::{CapitalizedString, Case, Fragment, WordCase};

#[test]
fn format_correctly() {
    let check = |data: &str, words: Vec<&str>, case: Case| {
        let mut s = CapitalizedString::new(data, case.seperator());
        let got: Vec<&str> = s.words.iter().map(|it| it.as_str()).collect();
        assert_eq!(words, got, "failed to seperate words with {case:?}");
        s.change_case(case);
        assert!(
            s.words.iter().all(|it| matches!(it, Fragment::Borrowed(_))),
            "failed to borrow for {case:?}"
        );
        assert_eq!(
            Some(data),
            s.original_data,
            "failed to save original_data for {case:?}"
        );
        let from_words = CapitalizedString::from_words(
            words.iter().map(|it| Fragment::Borrowed(*it)).collect(),
            case.seperator(),
        );
        assert_eq!(data, from_words.to_text(), "failed to join words with {case:?}");
    };

    check("", vec![""], Case::lower());
    check("test with spaces", vec!["test", "with", "spaces"], Case::lower());
    check(
        "test_with_underscores",
        vec!["test", "with", "underscores"],
        Case::snake(),
    );
    check(
        "testwithoutseperator",
        vec!["testwithoutseperator"],
        Case::new(WordCase::Lower, None),
    );
    check(
        "TestWithoutSeperator",
        vec!["Test", "Without", "Seperator"],
        Case::pascal(),
    );
    check(
        "testWithoutSeperator",
        vec!["test", "Without", "Seperator"],
        Case::Camel,
    );
}

#[test]
fn some_extra() {
    let format = |s: &str, case: Case| CapitalizedString::new_into(s, case).unwrap().to_text();
    assert_eq!("Abc", format("abc", Case::pascal()));
    assert_eq!("Abc", format("Abc", Case::pascal()));
    assert_eq!("Abc", format("ABC", Case::pascal()));
    assert_eq!("Abc", format("_aBc", Case::pascal()));
    assert_eq!("AbCd", format("aB_CD", Case::pascal()));
}

#[test]
fn from_words() {
    let data = vec!["test", "with", "spaces"];

    let borrowed = CapitalizedString::from_words(
        data.iter().map(|it| Fragment::Borrowed(*it)).collect(),
        None,
    );
    let got: Vec<&str> = borrowed.words.iter().map(|it| it.as_str()).collect();
    assert_eq!(data, got, "failed with borrowed");

    let owned = CapitalizedString::from_words(
        data.iter().map(|it| Fragment::Owned(it.to_string())).collect(),
        None,
    );
    let got: Vec<&str> = owned.words.iter().map(|it| it.as_str()).collect();
    assert_eq!(data, got, "failed with owned");
}

#[test]
fn convert() {
    let mut data = CapitalizedString::new("some data", Some(' '));
    data.change_case(Case::upper());
    assert_eq!("SOME DATA", data.to_text());
    data.change_case(Case::snake());
    assert_eq!("some_data", data.to_text());
    data.change_case(Case::pascal());
    assert_eq!("SomeData", data.to_text());
    data.change_case(Case::kebab());
    assert_eq!("some-data", data.to_text());
    data.change_case(Case::Camel);
    assert_eq!("someData", data.to_text());
    data.change_case(Case::lower());
    assert_eq!("some data", data.to_text());
}

#[test]
fn convert_no_extra_allocation() {
    let orig = "datawithoutseperator!";
    let mut data = CapitalizedString::new(orig, Some(' '));
    data.change_case(Case::kebab());
    assert_eq!(Some(orig), data.original_data);
    data.change_case(Case::lower());
    assert_eq!(Some(orig), data.original_data);
}

#[test]
fn detect() {
    let mut data = CapitalizedString::try_from("some data with spaces").unwrap();
    data.change_case(Case::new(WordCase::Capitalized, Some('-')));
    assert_eq!("Some-Data-With-Spaces", data.to_text());
    let mut data = CapitalizedString::try_from("SomeDataWithoutSpaces").unwrap();
    data.change_case(Case::kebab());
    assert_eq!("some-data-without-spaces", data.to_text());
}

#[test]
fn detect_no_extra_allocation() {
    let orig = "SomeDataWithoutSpaces";
    let mut data = CapitalizedString::try_from(orig).unwrap();
    data.change_case(Case::pascal());
    assert_eq!(Some(orig), data.original_data);
}

#[test]
fn mixed_seperators_rejected() {
    assert!(CapitalizedString::try_from("snake_and-kebab").is_err());
    assert!(CapitalizedString::try_from("space and_snake").is_err());
    let err = CapitalizedString::try_from("a b-c_d").unwrap_err();
    assert_eq!(vec![' ', '-', '_'], err.delims);

    assert!(CapitalizedString::try_from("only_snake_here").is_ok());
    assert!(CapitalizedString::try_from("nodelimiters").is_ok());
    assert!(CapitalizedString::try_from("").is_ok());
}

#[test]
fn empty_text_round_trip() {
    let s = CapitalizedString::new("", None);
    assert_eq!("", s.to_text());
    assert_eq!(Some(""), s.original_data);
}

#[test]
fn word_case_membership() {
    assert!(!WordCase::Lower.word_not_in_case("already"));
    assert!(WordCase::Lower.word_not_in_case("Not"));
    assert!(!WordCase::Upper.word_not_in_case("LOUD"));
    assert!(WordCase::Upper.word_not_in_case("quiet"));
    assert!(!WordCase::Capitalized.word_not_in_case("Word"));
    assert!(WordCase::Capitalized.word_not_in_case("word"));
    assert!(!WordCase::Capitalized.word_not_in_case(""));
}

#[test]
fn into_owned_copies_all_fragments() {
    let text = String::from("hold these words");
    let owned = CapitalizedString::new(text.as_str(), Some(' ')).into_owned();
    assert!(owned.words.iter().all(|it| matches!(it, Fragment::Owned(_))));
    assert_eq!(None, owned.original_data);
    assert_eq!("hold these words", owned.to_text());
}

#[test]
fn convert_word_in_case_is_a_no_op() {
    let word = Fragment::Borrowed("already");
    let out = WordCase::Lower.convert(word);
    assert!(matches!(out, Fragment::Borrowed(_)));
    assert_eq!("already", out.as_str());

    let word = Fragment::Borrowed("Word");
    let out = WordCase::Capitalized.convert(word);
    assert!(matches!(out, Fragment::Borrowed(_)));
    assert_eq!("Word", out.as_str());

    let out = WordCase::Upper.convert(Fragment::Borrowed("loud"));
    assert!(matches!(out, Fragment::Owned(_)));
    assert_eq!("LOUD", out.as_str());
}
