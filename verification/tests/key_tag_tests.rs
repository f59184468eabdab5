use m3u8_core::key_tag::{parse_ext_x_key, KeyTagError};

#[test]
fn reads_method_uri_and_iv() {
    let r = parse_ext_x_key(
        "#EXT-X-KEY:METHOD=AES-128,URI=\"k\",IV=0x00112233445566778899aabbccddeeff",
    );
    assert_eq!(
        r,
        Ok((
            "AES-128".to_string(),
            "k".to_string(),
            Some("0x00112233445566778899aabbccddeeff".to_string())
        ))
    );
}

#[test]
fn tag_without_iv_has_none() {
    let r = parse_ext_x_key("#EXT-X-KEY:METHOD=AES-128,URI=\"key.php\"");
    assert_eq!(r, Ok(("AES-128".to_string(), "key.php".to_string(), None)));
}

#[test]
fn method_none_has_empty_uri() {
    let r = parse_ext_x_key("#EXT-X-KEY:METHOD=NONE");
    assert_eq!(r, Ok(("NONE".to_string(), String::new(), None)));
}

#[test]
fn names_and_values_are_trimmed() {
    let r = parse_ext_x_key("#EXT-X-KEY: METHOD = AES-128 , URI = \"a b\" ");
    assert_eq!(r, Ok(("AES-128".to_string(), "a b".to_string(), None)));
}

#[test]
fn value_keeps_what_follows_its_first_equals_sign() {
    let r = parse_ext_x_key("#EXT-X-KEY:METHOD=AES-128,URI=\"k?a=1\"");
    assert_eq!(r, Ok(("AES-128".to_string(), "k?a=1".to_string(), None)));
}

#[test]
fn unknown_attributes_are_passed_over() {
    let r = parse_ext_x_key("#EXT-X-KEY:METHOD=AES-128,KEYFORMAT=\"identity\",URI=\"k\"");
    assert_eq!(r, Ok(("AES-128".to_string(), "k".to_string(), None)));
}

#[test]
fn the_last_value_of_a_name_counts() {
    let r = parse_ext_x_key("#EXT-X-KEY:METHOD=NONE,METHOD=AES-128,URI=a,URI=b");
    assert_eq!(r, Ok(("AES-128".to_string(), "b".to_string(), None)));
}

#[test]
fn attribute_without_equals_sign_is_refused() {
    assert_eq!(
        parse_ext_x_key("#EXT-X-KEY:METHOD=AES-128,URI"),
        Err(KeyTagError::MissingValue)
    );
    assert_eq!(
        parse_ext_x_key("#EXT-X-KEY:METHOD=NONE,"),
        Err(KeyTagError::MissingValue)
    );
    assert_eq!(parse_ext_x_key("#EXT-X-KEY:"), Err(KeyTagError::MissingValue));
}

#[test]
fn comma_between_double_quotes_belongs_to_the_value() {
    let r = parse_ext_x_key(
        "#EXT-X-KEY:METHOD=AES-128,URI=\"https://h.example/k?a=1,b=2\",IV=0x01",
    );
    assert_eq!(
        r,
        Ok((
            "AES-128".to_string(),
            "https://h.example/k?a=1,b=2".to_string(),
            Some("0x01".to_string())
        ))
    );
}

#[test]
fn quoted_value_may_hold_several_commas_and_equals_signs() {
    let r = parse_ext_x_key("#EXT-X-KEY:URI=\",a=b,,c=d,\",METHOD=AES-128");
    assert_eq!(r, Ok(("AES-128".to_string(), ",a=b,,c=d,".to_string(), None)));
}

#[test]
fn double_quotes_that_are_never_closed_hold_the_rest_of_the_line() {
    let r = parse_ext_x_key("#EXT-X-KEY:METHOD=AES-128,URI=\"a,IV=0x01");
    assert_eq!(r, Ok(("AES-128".to_string(), "a,IV=0x01".to_string(), None)));
}

#[test]
fn commas_after_closed_double_quotes_split_again() {
    let r = parse_ext_x_key("#EXT-X-KEY:URI=\"a,b\",METHOD=NONE,IV=\"0x01,\",X=\"\"");
    assert_eq!(r, Ok(("NONE".to_string(), "a,b".to_string(), Some("0x01,".to_string()))));
}

#[test]
fn piece_in_double_quotes_is_read_like_any_other() {
    assert_eq!(
        parse_ext_x_key("#EXT-X-KEY:METHOD=NONE,\"URI=a,b\""),
        Ok(("NONE".to_string(), String::new(), None))
    );
    assert_eq!(
        parse_ext_x_key("#EXT-X-KEY:METHOD=NONE,\"a,b\""),
        Err(KeyTagError::MissingValue)
    );
}

#[test]
fn the_name_of_the_tag_is_taken_off_once() {
    assert_eq!(
        parse_ext_x_key("#EXT-X-KEY:#EXT-X-KEY:METHOD=NONE"),
        Ok((String::new(), String::new(), None))
    );
    assert_eq!(
        parse_ext_x_key("METHOD=NONE,URI=k"),
        Ok(("NONE".to_string(), "k".to_string(), None))
    );
}
