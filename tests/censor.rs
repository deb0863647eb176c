use tabletop_logs::censor::censor_text;

fn phrases(list: &[&str]) -> Vec<String> {
    list.iter().map(|s| s.to_string()).collect()
}

#[test]
fn censors_whole_words_without_regard_to_case() {
    assert_eq!(
        censor_text("My name is Test Deadname here", &phrases(&["test deadname"]), ":)"),
        "My name is :) here"
    );
    assert_eq!(censor_text("Bob says hi", &phrases(&["BOB"]), ":)"), ":) says hi");
    assert_eq!(censor_text("hi Bob", &phrases(&["bob"]), ":)"), "hi :)");
    assert_eq!(censor_text("Bob and Bob", &phrases(&["bob"]), ":)"), ":) and :)");
}

#[test]
fn leaves_parts_of_words_and_empty_phrases() {
    assert_eq!(censor_text("Testing", &phrases(&["test"]), ":)"), "Testing");
    assert_eq!(censor_text("abc", &phrases(&[""]), ":)"), "abc");
    assert_eq!(censor_text("abc", &phrases(&[]), ":)"), "abc");
}

#[test]
fn censors_each_phrase_in_turn() {
    assert_eq!(
        censor_text("Alex met Sam today", &phrases(&["alex", "sam"]), "X"),
        "X met X today"
    );
}
