use every_variant::std_impl::LARGE_LEN;
use every_variant::EveryVariant;

#[test]
fn unsigned_integers_list_zero_one_a_sentinel_and_the_maximum() {
    assert_eq!(u8::every_variant(), vec![0, 1, 43, 255]);
    assert_eq!(u16::every_variant(), vec![0, 1, 43, 65535]);
    assert_eq!(u32::every_variant(), vec![0, 1, 43, 4294967295]);
    assert_eq!(u64::every_variant(), vec![0, 1, 43, 18446744073709551615]);
}

#[test]
fn signed_integers_list_both_ends_and_the_values_around_zero() {
    assert_eq!(i8::every_variant(), vec![-128, -1, 0, 1, 127]);
    assert_eq!(i16::every_variant(), vec![-32768, -1, 0, 1, 32767]);
    assert_eq!(i32::every_variant(), vec![-2147483648, -1, 0, 1, 2147483647]);
    assert_eq!(
        i64::every_variant(),
        vec![-9223372036854775808, -1, 0, 1, 9223372036854775807]
    );
}

#[test]
fn pointer_sized_integer_has_no_sentinel() {
    assert_eq!(usize::every_variant(), vec![0, 1, usize::MAX]);
}

#[test]
fn bool_lists_true_then_false() {
    assert_eq!(bool::every_variant(), vec![true, false]);
}

#[test]
fn unit_has_one_value() {
    assert_eq!(<()>::every_variant(), vec![()]);
}

#[test]
fn owned_string_lists_four_texts() {
    assert_eq!(
        String::every_variant(),
        vec![
            String::from("example String"),
            String::new(),
            String::from("!\"¤%!#/&/(^^ÄÖ"),
            String::from("null"),
        ]
    );
}

#[test]
fn borrowed_string_lists_one_text() {
    assert_eq!(<&'static str>::every_variant(), vec!["&static str!"]);
}

#[test]
fn option_lists_none_then_some_of_each() {
    assert_eq!(Option::<bool>::every_variant(), vec![None, Some(true), Some(false)]);
    assert_eq!(
        Option::<u64>::every_variant(),
        vec![None, Some(0), Some(1), Some(43), Some(u64::MAX)]
    );
}

#[test]
fn option_has_one_more_than_its_item() {
    assert_eq!(Option::<i8>::every_variant().len(), 1 + i8::every_variant().len());
    assert_eq!(Option::<String>::every_variant().len(), 1 + String::every_variant().len());
    assert_eq!(Option::<Option<u8>>::every_variant().len(), 6);
}

#[test]
fn nested_option_keeps_the_order() {
    assert_eq!(
        Option::<Option<bool>>::every_variant(),
        vec![None, Some(None), Some(Some(true)), Some(Some(false))]
    );
}

#[test]
fn result_lists_every_ok_then_every_err() {
    assert_eq!(
        Result::<bool, u8>::every_variant(),
        vec![Ok(true), Ok(false), Err(0), Err(1), Err(43), Err(255)]
    );
}

#[test]
fn result_has_as_many_as_both_sides_together() {
    assert_eq!(Result::<i32, String>::every_variant().len(), 5 + 4);
    assert_eq!(Result::<(), ()>::every_variant(), vec![Ok(()), Err(())]);
}

#[test]
fn vec_lists_all_none_one_and_many() {
    let all = Vec::<u8>::every_variant();
    assert_eq!(all.len(), 4);
    assert_eq!(all[0], vec![0, 1, 43, 255]);
    assert_eq!(all[1], Vec::<u8>::new());
    assert_eq!(all[2], vec![0]);
    assert_eq!(all[3].len(), 1000000);
    assert_eq!(LARGE_LEN, 1000000);
    assert!(all[3].iter().all(|item| *item == 0));
}

#[test]
fn vec_repeats_the_first_variant_of_its_item() {
    let all = Vec::<String>::every_variant();
    assert_eq!(all[0], String::every_variant());
    assert_eq!(all[2], vec![String::from("example String")]);
    assert_eq!(all[3].len(), 1000000);
    assert_eq!(all[3][0], "example String");
    assert_eq!(all[3][999999], "example String");

    let all = Vec::<Option<i16>>::every_variant();
    assert_eq!(all[0].len(), 6);
    assert_eq!(all[2], vec![None]);
    assert_eq!(all[3][123456], None);

    let all = Vec::<i32>::every_variant();
    assert_eq!(all[2], vec![i32::MIN]);
}

#[test]
fn lists_are_never_empty() {
    assert!(!u8::every_variant().is_empty());
    assert!(!<()>::every_variant().is_empty());
    assert!(!<&'static str>::every_variant().is_empty());
    assert!(!Option::<()>::every_variant().is_empty());
    assert!(!Result::<bool, bool>::every_variant().is_empty());
    assert!(!Vec::<bool>::every_variant().is_empty());
}

#[test]
fn two_calls_give_the_same_list() {
    assert_eq!(u32::every_variant(), u32::every_variant());
    assert_eq!(String::every_variant(), String::every_variant());
    assert_eq!(Option::<String>::every_variant(), Option::<String>::every_variant());
    assert_eq!(Result::<u8, i8>::every_variant(), Result::<u8, i8>::every_variant());
    assert_eq!(Vec::<bool>::every_variant(), Vec::<bool>::every_variant());
}
