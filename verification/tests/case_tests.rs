use qser::case::Case;
use qser::error::ConfigError;

const ALL: [Case; 8] = [
    Case::Lowercase,
    Case::Uppercase,
    Case::PascalCase,
    Case::CamelCase,
    Case::SnakeCase,
    Case::ScreamingSnakeCase,
    Case::KebabCase,
    Case::ScreamingKebabCase,
];

#[test]
fn case_from_str_reads_the_eight_names() {
    assert_eq!(Case::from_str("lowercase"), Ok(Case::Lowercase));
    assert_eq!(Case::from_str("UPPERCASE"), Ok(Case::Uppercase));
    assert_eq!(Case::from_str("PascalCase"), Ok(Case::PascalCase));
    assert_eq!(Case::from_str("camelCase"), Ok(Case::CamelCase));
    assert_eq!(Case::from_str("snake_case"), Ok(Case::SnakeCase));
    assert_eq!(Case::from_str("SCREAMING_SNAKE_CASE"), Ok(Case::ScreamingSnakeCase));
    assert_eq!(Case::from_str("kebab-case"), Ok(Case::KebabCase));
    assert_eq!(Case::from_str("SCREAMING-KEBAB-CASE"), Ok(Case::ScreamingKebabCase));
}

#[test]
fn case_from_str_refuses_other_text() {
    assert_eq!(Case::from_str(""), Err(ConfigError::InvalidCase));
    assert_eq!(Case::from_str("Lowercase"), Err(ConfigError::InvalidCase));
    assert_eq!(Case::from_str("snake-case"), Err(ConfigError::InvalidCase));
    assert_eq!(Case::from_str("camelCase "), Err(ConfigError::InvalidCase));
}

#[test]
fn transform_of_a_field_name() {
    let name = "first_name";
    assert_eq!(Case::Lowercase.transform(name), "first_name");
    assert_eq!(Case::Uppercase.transform(name), "FIRST_NAME");
    assert_eq!(Case::PascalCase.transform(name), "FirstName");
    assert_eq!(Case::CamelCase.transform(name), "firstName");
    assert_eq!(Case::SnakeCase.transform(name), "first_name");
    assert_eq!(Case::ScreamingSnakeCase.transform(name), "FIRST_NAME");
    assert_eq!(Case::KebabCase.transform(name), "first-name");
    assert_eq!(Case::ScreamingKebabCase.transform(name), "FIRST-NAME");
}

#[test]
fn transform_of_a_variant_name() {
    let name = "FirstName";
    assert_eq!(Case::Lowercase.transform(name), "firstname");
    assert_eq!(Case::Uppercase.transform(name), "FIRSTNAME");
    assert_eq!(Case::PascalCase.transform(name), "FirstName");
    assert_eq!(Case::CamelCase.transform(name), "firstName");
    assert_eq!(Case::SnakeCase.transform(name), "first_name");
    assert_eq!(Case::ScreamingSnakeCase.transform(name), "FIRST_NAME");
    assert_eq!(Case::KebabCase.transform(name), "first-name");
    assert_eq!(Case::ScreamingKebabCase.transform(name), "FIRST-NAME");
}

#[test]
fn transform_of_the_empty_name() {
    for case in ALL {
        assert_eq!(case.transform(""), "");
    }
}

#[test]
fn transform_keeps_what_is_no_ascii_letter() {
    assert_eq!(Case::Uppercase.transform("añb9"), "AñB9");
    assert_eq!(Case::Lowercase.transform("AÑB9"), "aÑb9");
    assert_eq!(Case::SnakeCase.transform("x2Y"), "x2y");
    assert_eq!(Case::PascalCase.transform("__a__b_"), "AB");
    assert_eq!(Case::CamelCase.transform("_Abc_def"), "abcDef");
    assert_eq!(Case::KebabCase.transform("a_b-c"), "a-b-c");
    assert_eq!(Case::ScreamingSnakeCase.transform("HTTPServer"), "HTTPSERVER");
    assert_eq!(Case::SnakeCase.transform("myHTTPServer"), "my_httpserver");
}

#[test]
fn transform_twice_is_transform_once() {
    let names = [
        "", "a", "A", "first_name", "FirstName", "firstName", "FIRST_NAME", "first-name",
        "FIRST-NAME", "_x_", "--", "aB_cD-eF", "x2Y", "ñandú_Ñ", "a__b", "Ab-Cd",
    ];
    for case in ALL {
        for name in names {
            let once = case.transform(name);
            let twice = case.transform(&once);
            assert_eq!(twice, once, "{:?} on {:?}", case, name);
        }
    }
}
