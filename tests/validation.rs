use cost_items_api::check::{
    parse_ids, parse_int, parse_long, same_text, validate_cost_item_params, validate_int, validate_long,
};

fn params(pairs: &[(&str, &str)]) -> Vec<(String, String)> {
    pairs.iter().map(|(k, v)| (k.to_string(), v.to_string())).collect()
}

#[test]
fn validate_long_test_ok() {
    match validate_long("2") {
        Ok(n) => assert_eq!(2, n),
        Err(e) => panic!("Returned Err! => {}", e.to_string()),
    }
}

#[test]
fn validate_long_test_ko() {
    match validate_long("a") {
        Err(e) if e.to_string() == "Error parsing string: 'a', not a valid integer" => assert_eq!(e.status, 400),
        Err(e) => panic!("Returned incorrect Err! => {}", e.to_string()),
        Ok(_) => panic!("Returned an Ok variant!"),
    }
}

#[test]
fn validate_long_signs_and_limits() {
    assert_eq!(validate_long("+5").ok(), Some(5));
    assert_eq!(validate_long("-17").ok(), Some(-17));
    assert_eq!(validate_long("007").ok(), Some(7));
    assert_eq!(validate_long("9223372036854775807").ok(), Some(i64::MAX));
    assert_eq!(validate_long("-9223372036854775808").ok(), Some(i64::MIN));
    assert!(validate_long("9223372036854775808").is_err());
    assert!(validate_long("-9223372036854775809").is_err());
    assert!(validate_long("123456789012345678901234567890").is_err());
}

#[test]
fn validate_long_rejects_malformed_text() {
    for s in ["", "-", "+", " 1", "1 ", "1.0", "1e3", "--1", "0x10", "1a"] {
        let e = validate_long(s).err().expect("must be rejected");
        assert_eq!(e.status, 400);
        assert_eq!(e.message, format!("Error parsing string: '{s}', not a valid integer"));
    }
}

#[test]
fn parse_long_agrees_with_std() {
    for s in ["0", "-0", "+0", "42", "-42", "99999999999999999999", "x", "", "-9223372036854775808"] {
        assert_eq!(parse_long(s), s.parse::<i64>().ok());
        assert_eq!(parse_int(s), s.parse::<i32>().ok());
    }
}

#[test]
fn validate_int_limits() {
    assert_eq!(validate_int("2147483647").ok(), Some(i32::MAX));
    assert_eq!(validate_int("-2147483648").ok(), Some(i32::MIN));
    let e = validate_int("2147483648").err().unwrap();
    assert_eq!(e.to_string(), "Error parsing string: '2147483648', not a valid integer");
}

#[test]
fn validate_ids_test_ok() {
    match parse_ids("1,2") {
        Ok(vec_n) => assert_eq!(vec![1, 2], vec_n),
        Err(e) => panic!("Returned Err! => {}", e.to_string()),
    }
}

#[test]
fn validate_ids_test_ko() {
    match parse_ids("a,1") {
        Err(e) if e.to_string() == "Error parsing string: 'a', not a valid integer" => (),
        Err(e) => panic!("Returned incorrect Err! => {}", e.to_string()),
        Ok(_) => panic!("Returned an Ok variant!"),
    }
}

#[test]
fn parse_ids_list_of_three() {
    assert_eq!(parse_ids("1,2,3").ok(), Some(vec![1, 2, 3]));
}

#[test]
fn parse_ids_cites_first_bad_token() {
    let e = parse_ids("a,2").err().unwrap();
    assert_eq!(e.to_string(), "Error parsing string: 'a', not a valid integer");
    let e = parse_ids("1,x,y").err().unwrap();
    assert_eq!(e.to_string(), "Error parsing string: 'x', not a valid integer");
    let e = parse_ids("1,,2").err().unwrap();
    assert_eq!(e.to_string(), "Error parsing string: '', not a valid integer");
    let e = parse_ids("").err().unwrap();
    assert_eq!(e.to_string(), "Error parsing string: '', not a valid integer");
    let e = parse_ids("4,").err().unwrap();
    assert_eq!(e.to_string(), "Error parsing string: '', not a valid integer");
}

#[test]
fn parse_ids_keeps_duplicates_and_order() {
    assert_eq!(parse_ids("3,1,3").ok(), Some(vec![3, 1, 3]));
    assert_eq!(parse_ids("-5").ok(), Some(vec![-5]));
}

#[test]
fn same_text_compares_characters() {
    assert!(same_text("id", "id"));
    assert!(!same_text("id", "ids"));
    assert!(!same_text("ab", "ba"));
    assert!(same_text("", ""));
}

#[test]
fn validate_cost_item_params_test_ok() {
    let p = params(&[("id", "1"), ("name", "English Congregation"), ("price", "1.20"), ("notes", "1112223333")]);
    match validate_cost_item_params(&p) {
        Ok(b) => assert!(b),
        Err(e) => panic!("Returned incorrect Err! => {}", e.to_string()),
    }
}

#[test]
fn validate_cost_item_params_test_ko_ids() {
    let p = params(&[
        ("id", "1"),
        ("ids", "1,2"),
        ("name", "English Congregation"),
        ("price", "1.20"),
        ("notes", "1112223333"),
    ]);
    match validate_cost_item_params(&p) {
        Err(e) if e.to_string() == "select only one of them, id xor ids" => assert_eq!(e.status, 400),
        Err(e) => panic!("Returned incorrect Err! => {}", e.to_string()),
        Ok(_) => panic!("Returned an Ok variant!"),
    }
}

#[test]
fn filter_with_id_and_ids_is_rejected() {
    let e = validate_cost_item_params(&params(&[("id", "1"), ("ids", "2,3")])).err().unwrap();
    assert_eq!(e.status, 400);
    assert_eq!(e.to_string(), "select only one of them, id xor ids");
    let e = validate_cost_item_params(&params(&[("ids", "2,3"), ("name", "x"), ("id", "zz")])).err().unwrap();
    assert_eq!(e.to_string(), "select only one of them, id xor ids");
}

#[test]
fn unknown_parameter_is_rejected() {
    let e = validate_cost_item_params(&params(&[("name", "a"), ("colour", "red"), ("size", "1")])).err().unwrap();
    assert_eq!(e.status, 400);
    assert_eq!(e.to_string(), "the parameter 'colour' is incorrect");
    let e = validate_cost_item_params(&params(&[("Id", "1")])).err().unwrap();
    assert_eq!(e.to_string(), "the parameter 'Id' is incorrect");
    let e = validate_cost_item_params(&params(&[("id", "1"), ("ids", "2"), ("x", "1")])).err().unwrap();
    assert_eq!(e.to_string(), "the parameter 'x' is incorrect");
}

#[test]
fn malformed_id_values_are_rejected() {
    let e = validate_cost_item_params(&params(&[("id", "one")])).err().unwrap();
    assert_eq!(e.to_string(), "Error parsing string: 'one', not a valid integer");
    let e = validate_cost_item_params(&params(&[("ids", "1,b")])).err().unwrap();
    assert_eq!(e.to_string(), "Error parsing string: 'b', not a valid integer");
    assert!(validate_cost_item_params(&params(&[("ids", "1,2"), ("price", "abc")])).is_ok());
    assert!(validate_cost_item_params(&params(&[])).is_ok());
}
