use tabletop_logs::records::Pronouns;

#[test]
fn pronouns_pronouns_table_from_str() {
    let table = Pronouns::parse("they/them/their/theirs").unwrap();
    assert_eq!(table.subj, "they");
    assert_eq!(table.obj, "them");
    assert_eq!(table.poss_pres, "their");
    assert_eq!(table.poss_past, "theirs");
}

#[test]
fn pronouns_need_four_parts() {
    assert!(Pronouns::parse("he/him/his").is_none());
    let table = Pronouns::parse("she/her/her/hers/extra").unwrap();
    assert_eq!(table.poss_past, "hers");
}
