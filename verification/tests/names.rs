use cassandra_macro::names::pascal_case_to_snake_case;

#[test]
fn test_pascal_case_to_snake_case() {
    let table_1 = String::from("Test");

    let new_table_1 = pascal_case_to_snake_case(&table_1);

    assert_eq!(new_table_1, String::from("test"));

    let table_2 = String::from("TestHello");

    let new_table_2 = pascal_case_to_snake_case(&table_2);

    assert_eq!(new_table_2, String::from("test_hello"));
}

#[test]
fn empty_name_passes_through() {
    assert_eq!(pascal_case_to_snake_case(&String::from("")), String::from(""));
}

#[test]
fn single_character_passes_through() {
    assert_eq!(pascal_case_to_snake_case(&String::from("A")), String::from("A"));
    assert_eq!(pascal_case_to_snake_case(&String::from("z")), String::from("z"));
}

#[test]
fn threshold_character_is_kept() {
    // 'Z' sits exactly on the threshold and is not treated as upper-case.
    assert_eq!(pascal_case_to_snake_case(&String::from("ZZ")), String::from("ZZ"));
}

#[test]
fn lower_case_name_is_fixed_point() {
    let lower = String::from("user_account");
    assert_eq!(pascal_case_to_snake_case(&lower), lower);
}

#[test]
fn derivation_is_stable_under_reapplication() {
    let once = pascal_case_to_snake_case(&String::from("UserAccount"));
    assert_eq!(once, String::from("user_account"));
    let twice = pascal_case_to_snake_case(&once);
    assert_eq!(twice, once);
}
