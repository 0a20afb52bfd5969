use ipkg::question::yesno;

#[test]
fn question_test() {}

#[test]
fn yesno_accepts_trimmed_case_insensitive_answers() {
    assert_eq!(yesno("yes"), Ok(true));
    assert_eq!(yesno("  Y \n"), Ok(true));
    assert_eq!(yesno("no"), Ok(false));
    assert_eq!(yesno("N"), Ok(false));
    assert_eq!(yesno("YES"), Ok(true));
}

#[test]
fn yesno_refuses_anything_else() {
    assert_eq!(yesno("maybe"), Err("Invalid answer: maybe".to_string()));
    assert_eq!(yesno("  Nope "), Err("Invalid answer: nope".to_string()));
    assert_eq!(yesno(""), Err("Invalid answer: ".to_string()));
}
