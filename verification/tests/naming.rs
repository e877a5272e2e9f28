use ligen::naming::{KebabCase, NamingConvention, SnakeCase};

#[test]
fn from_kebab_case() {
    let kebab_case = KebabCase::try_from("naming-convention").expect("Not in snake case.");
    let snake_case = SnakeCase::from(kebab_case);
    assert_eq!(snake_case.to_string(), "naming_convention");
}

#[test]
fn kebab_case_rejects_uppercase() {
    assert!(KebabCase::try_from("NamingConvention").is_err());
    assert!(KebabCase::try_from("").is_err());
    assert!(KebabCase::try_from("naming_convention").is_err());
}

#[test]
fn snake_case_from_convention() {
    let kebab = KebabCase::try_from("a-b-c").unwrap();
    let snake = SnakeCase::from_convention(NamingConvention::KebabCase(kebab));
    assert_eq!(snake.to_string(), "a_b_c");
    let direct = SnakeCase::try_from("kept_as_is").unwrap();
    let snake = SnakeCase::from_convention(NamingConvention::SnakeCase(direct));
    assert_eq!(snake.to_string(), "kept_as_is");
}
