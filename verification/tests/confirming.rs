use beam_mm::confirm;

#[test]
fn test_confirm() {
    // We need to test the following situations:
    // 1. Default is true, user inputs "n" -> false
    // 2. Default is true, user inputs "y" -> true
    // 3. Default is true, user inputs nothing -> true
    // 4. Default is false, user inputs "n" -> false
    // 5. Default is false, user inputs "y" -> true
    // 6. Default is false, user inputs nothing -> false

    let input_y = "y\n";
    let input_n = "n\n";
    let input_nothing = "\n";

    let confirm_all = false;

    assert!(!confirm(input_n, true, confirm_all));
    assert!(confirm(input_y, true, confirm_all));
    assert!(confirm(input_nothing, true, confirm_all));
    assert!(!confirm(input_n, false, confirm_all));
    assert!(confirm(input_y, false, confirm_all));
    assert!(!confirm(input_nothing, false, confirm_all));
    // If confirm_all is true, it should always return true.
    assert!(confirm(input_n, true, true));
}

#[test]
fn confirm_is_case_insensitive_and_trims() {
    assert!(confirm("  Y  \n", false, false));
    assert!(!confirm("\tN\r\n", true, false));
    assert!(confirm("Y", false, false));
    assert!(!confirm("N", true, false));
}

#[test]
fn confirm_takes_other_answers_as_default() {
    assert!(confirm("maybe", true, false));
    assert!(!confirm("maybe", false, false));
    assert!(!confirm("yes please", false, false));
    assert!(confirm("no!", true, false));
}
