use wildmatch::WildMatch;

#[test]
fn is_match_1() {
    let m = WildMatch::new("**");
    assert!(m.matches("cat"));
}

#[test]
fn is_match_2() {
    let m = WildMatch::new("*");
    assert!(m.matches("cat"));
}

#[test]
fn is_match_3() {
    let m = WildMatch::new("*?*");
    assert!(m.matches("cat"));
}

#[test]
fn is_match_4() {
    let m = WildMatch::new("c*");
    assert!(m.matches("cat"));
}

#[test]
fn is_match_5() {
    let m = WildMatch::new("c?*");
    assert!(m.matches("cat"));
}

#[test]
fn is_match_6() {
    let m = WildMatch::new("???");
    assert!(m.matches("cat"));
}

#[test]
fn is_match_7() {
    let m = WildMatch::new("c?t");
    assert!(m.matches("cat"));
}

#[test]
fn is_match_8() {
    let m = WildMatch::new("cat");
    assert!(m.matches("cat"));
}

#[test]
fn is_match_9() {
    let m = WildMatch::new("*cat");
    assert!(m.matches("cat"));
}

#[test]
fn is_match_10() {
    let m = WildMatch::new("cat*");
    assert!(m.matches("cat"));
}

#[test]
fn is_match_case_insensitive_1() {
    let m = WildMatch::new_case_insensitive("CAT");
    assert!(m.matches("cat"));
}

#[test]
fn is_match_case_insensitive_2() {
    let m = WildMatch::new_case_insensitive("CAT");
    assert!(m.matches("CAT"));
}

#[test]
fn is_match_case_insensitive_3() {
    let m = WildMatch::new_case_insensitive("CA?");
    assert!(m.matches("Cat"));
}

#[test]
fn is_match_case_insensitive_4() {
    let m = WildMatch::new_case_insensitive("C*");
    assert!(m.matches("cAt"));
}

#[test]
fn is_match_case_insensitive_5() {
    let m = WildMatch::new_case_insensitive("C?*");
    assert!(m.matches("cAT"));
}

#[test]
fn is_match_case_insensitive_6() {
    let m = WildMatch::new_case_insensitive("C**");
    assert!(m.matches("caT"));
}

#[test]
fn is_match_case_insensitive_cyrillic_lower() {
    let m = WildMatch::new_case_insensitive("КОТ");
    assert!(m.matches("кот"));
}

#[test]
fn is_match_case_insensitive_cyrillic_upper() {
    let m = WildMatch::new_case_insensitive("КОТ");
    assert!(m.matches("КОТ"));
}

#[test]
fn is_match_case_insensitive_cyrillic_mixed1() {
    let m = WildMatch::new_case_insensitive("КО?");
    assert!(m.matches("Кот"));
}

#[test]
fn is_match_case_insensitive_cyrillic_mixed2() {
    let m = WildMatch::new_case_insensitive("К*");
    assert!(m.matches("кОт"));
}

#[test]
fn is_match_case_insensitive_cyrillic_mixed3() {
    let m = WildMatch::new_case_insensitive("К?*");
    assert!(m.matches("кОТ"));
}

#[test]
fn is_match_case_insensitive_cyrillic_mixed4() {
    let m = WildMatch::new_case_insensitive("К**");
    assert!(m.matches("коТ"));
}

#[test]
fn no_match_1() {
    let m = WildMatch::new("*d*");
    assert!(!m.matches("cat"));
}

#[test]
fn no_match_2() {
    let m = WildMatch::new("*d");
    assert!(!m.matches("cat"));
}

#[test]
fn no_match_3() {
    let m = WildMatch::new("d*");
    assert!(!m.matches("cat"));
}

#[test]
fn no_match_4() {
    let m = WildMatch::new("*c");
    assert!(!m.matches("cat"));
}

#[test]
fn no_match_5() {
    let m = WildMatch::new("?");
    assert!(!m.matches("cat"));
}

#[test]
fn no_match_6() {
    let m = WildMatch::new("??");
    assert!(!m.matches("cat"));
}

#[test]
fn no_match_7() {
    let m = WildMatch::new("????");
    assert!(!m.matches("cat"));
}

#[test]
fn no_match_8() {
    let m = WildMatch::new("?????");
    assert!(!m.matches("cat"));
}

#[test]
fn no_match_9() {
    let m = WildMatch::new("*????");
    assert!(!m.matches("cat"));
}

#[test]
fn no_match_10() {
    let m = WildMatch::new("cats");
    assert!(!m.matches("cat"));
}

#[test]
fn no_match_11() {
    let m = WildMatch::new("cat?");
    assert!(!m.matches("cat"));
}

#[test]
fn no_match_12() {
    let m = WildMatch::new("cacat");
    assert!(!m.matches("cat"));
}

#[test]
fn no_match_13() {
    let m = WildMatch::new("cat*dog");
    assert!(!m.matches("cat"));
}

#[test]
fn no_match_14() {
    let m = WildMatch::new("CAT");
    assert!(!m.matches("cat"));
}

#[test]
fn no_match_long_1() {
    let m = WildMatch::new("1");
    assert!(!m.matches(""));
}

#[test]
fn no_match_long_2() {
    let m = WildMatch::new("?");
    assert!(!m.matches(""));
}

#[test]
fn no_match_long_3() {
    let m = WildMatch::new("?");
    assert!(!m.matches("11"));
}

#[test]
fn no_match_long_4() {
    let m = WildMatch::new("*1?");
    assert!(!m.matches("123"));
}

#[test]
fn no_match_long_5() {
    let m = WildMatch::new("*12");
    assert!(!m.matches("122"));
}

#[test]
fn no_match_long_6() {
    let m = WildMatch::new("cat?");
    assert!(!m.matches("wildcats"));
}

#[test]
fn no_match_long_7() {
    let m = WildMatch::new("cat*");
    assert!(!m.matches("wildcats"));
}

#[test]
fn no_match_long_8() {
    let m = WildMatch::new("*x*");
    assert!(!m.matches("wildcats"));
}

#[test]
fn no_match_long_9() {
    let m = WildMatch::new("*a");
    assert!(!m.matches("wildcats"));
}

#[test]
fn no_match_long_10() {
    let m = WildMatch::new("");
    assert!(!m.matches("wildcats"));
}

#[test]
fn no_match_long_11() {
    let m = WildMatch::new(" ");
    assert!(!m.matches("wildcats"));
}

#[test]
fn no_match_long_12() {
    let m = WildMatch::new(" ");
    assert!(!m.matches("\n"));
}

#[test]
fn no_match_long_whitespace_mismatch() {
    let m = WildMatch::new(" ");
    assert!(!m.matches("\t"));
}

#[test]
fn no_match_long_14() {
    let m = WildMatch::new("???");
    assert!(!m.matches("wildcats"));
}

#[test]
fn match_long_1() {
    let m = WildMatch::new("*");
    assert!(
        m.matches(""),
        "Expected pattern {} to match {}",
        "*",
        ""
    );
}

#[test]
fn match_long_2() {
    let m = WildMatch::new("*");
    assert!(
        m.matches("1"),
        "Expected pattern {} to match {}",
        "*",
        "1"
    );
}

#[test]
fn match_long_3() {
    let m = WildMatch::new("?");
    assert!(
        m.matches("1"),
        "Expected pattern {} to match {}",
        "?",
        "1"
    );
}

#[test]
fn match_long_4() {
    let m = WildMatch::new("*121");
    assert!(
        m.matches("12121"),
        "Expected pattern {} to match {}",
        "*121",
        "12121"
    );
}

#[test]
fn match_long_5() {
    let m = WildMatch::new("?*3");
    assert!(
        m.matches("111333"),
        "Expected pattern {} to match {}",
        "?*3",
        "111333"
    );
}

#[test]
fn match_long_6() {
    let m = WildMatch::new("*113");
    assert!(
        m.matches("1113"),
        "Expected pattern {} to match {}",
        "*113",
        "1113"
    );
}

#[test]
fn match_long_7() {
    let m = WildMatch::new("*113");
    assert!(
        m.matches("113"),
        "Expected pattern {} to match {}",
        "*113",
        "113"
    );
}

#[test]
fn match_long_8() {
    let m = WildMatch::new("*113");
    assert!(
        m.matches("11113"),
        "Expected pattern {} to match {}",
        "*113",
        "11113"
    );
}

#[test]
fn match_long_9() {
    let m = WildMatch::new("*113");
    assert!(
        m.matches("111113"),
        "Expected pattern {} to match {}",
        "*113",
        "111113"
    );
}

#[test]
fn match_long_10() {
    let m = WildMatch::new("*???a");
    assert!(
        m.matches("bbbba"),
        "Expected pattern {} to match {}",
        "*???a",
        "bbbba"
    );
}

#[test]
fn match_long_11() {
    let m = WildMatch::new("*???a");
    assert!(
        m.matches("bbbbba"),
        "Expected pattern {} to match {}",
        "*???a",
        "bbbbba"
    );
}

#[test]
fn match_long_12() {
    let m = WildMatch::new("*???a");
    assert!(
        m.matches("bbbbbba"),
        "Expected pattern {} to match {}",
        "*???a",
        "bbbbbba"
    );
}

#[test]
fn match_long_13() {
    let m = WildMatch::new("*o?a*");
    assert!(
        m.matches("foobar"),
        "Expected pattern {} to match {}",
        "*o?a*",
        "foobar"
    );
}

#[test]
fn match_long_14() {
    let m = WildMatch::new("*ooo?ar");
    assert!(
        m.matches("foooobar"),
        "Expected pattern {} to match {}",
        "*ooo?ar",
        "foooobar"
    );
}

#[test]
fn match_long_15() {
    let m = WildMatch::new("*o?a*r");
    assert!(
        m.matches("foobar"),
        "Expected pattern {} to match {}",
        "*o?a*r",
        "foobar"
    );
}

#[test]
fn match_long_16() {
    let m = WildMatch::new("*cat*");
    assert!(
        m.matches("d&(*og_cat_dog"),
        "Expected pattern {} to match {}",
        "*cat*",
        "d&(*og_cat_dog"
    );
}

#[test]
fn match_long_17() {
    let m = WildMatch::new("*?*");
    assert!(
        m.matches("d&(*og_cat_dog"),
        "Expected pattern {} to match {}",
        "*?*",
        "d&(*og_cat_dog"
    );
}

#[test]
fn match_long_18() {
    let m = WildMatch::new("*a*");
    assert!(
        m.matches("d&(*og_cat_dog"),
        "Expected pattern {} to match {}",
        "*a*",
        "d&(*og_cat_dog"
    );
}

#[test]
fn match_long_19() {
    let m = WildMatch::new("a*b");
    assert!(
        m.matches("a*xb"),
        "Expected pattern {} to match {}",
        "a*b",
        "a*xb"
    );
}

#[test]
fn match_long_20() {
    let m = WildMatch::new("*");
    assert!(
        m.matches("*"),
        "Expected pattern {} to match {}",
        "*",
        "*"
    );
}

#[test]
fn match_long_21() {
    let m = WildMatch::new("*");
    assert!(
        m.matches("?"),
        "Expected pattern {} to match {}",
        "*",
        "?"
    );
}

#[test]
fn match_long_22() {
    let m = WildMatch::new("?");
    assert!(
        m.matches("?"),
        "Expected pattern {} to match {}",
        "?",
        "?"
    );
}

#[test]
fn match_long_23() {
    let m = WildMatch::new("wildcats");
    assert!(
        m.matches("wildcats"),
        "Expected pattern {} to match {}",
        "wildcats",
        "wildcats"
    );
}

#[test]
fn match_long_24() {
    let m = WildMatch::new("wild*cats");
    assert!(
        m.matches("wild?cats"),
        "Expected pattern {} to match {}",
        "wild*cats",
        "wild?cats"
    );
}

#[test]
fn match_long_25() {
    let m = WildMatch::new("wi*ca*s");
    assert!(
        m.matches("wildcats"),
        "Expected pattern {} to match {}",
        "wi*ca*s",
        "wildcats"
    );
}

#[test]
fn match_long_26() {
    let m = WildMatch::new("wi*ca?s");
    assert!(
        m.matches("wildcats"),
        "Expected pattern {} to match {}",
        "wi*ca?s",
        "wildcats"
    );
}

#[test]
fn match_long_27() {
    let m = WildMatch::new("*o?");
    assert!(
        m.matches("hog_cat_dog"),
        "Expected pattern {} to match {}",
        "*o?",
        "hog_cat_dog"
    );
}

#[test]
fn match_long_28() {
    let m = WildMatch::new("*o?");
    assert!(
        m.matches("cat_dog"),
        "Expected pattern {} to match {}",
        "*o?",
        "cat_dog"
    );
}

#[test]
fn match_long_29() {
    let m = WildMatch::new("*at_dog");
    assert!(
        m.matches("cat_dog"),
        "Expected pattern {} to match {}",
        "*at_dog",
        "cat_dog"
    );
}

#[test]
fn match_long_30() {
    let m = WildMatch::new(" ");
    assert!(
        m.matches(" "),
        "Expected pattern {} to match {}",
        " ",
        " "
    );
}

#[test]
fn match_long_31() {
    let m = WildMatch::new("* ");
    assert!(
        m.matches("\n "),
        "Expected pattern {} to match {}",
        "* ",
        "\n "
    );
}

#[test]
fn match_long_special_chars() {
    let m = WildMatch::new("\n");
    assert!(
        m.matches("\n"),
        "Expected pattern {} to match {}",
        "\n",
        "\n"
    );
}

#[test]
fn match_long_33() {
    let m = WildMatch::new("*32");
    assert!(
        m.matches("432"),
        "Expected pattern {} to match {}",
        "*32",
        "432"
    );
}

#[test]
fn match_long_34() {
    let m = WildMatch::new("*32");
    assert!(
        m.matches("332"),
        "Expected pattern {} to match {}",
        "*32",
        "332"
    );
}

#[test]
fn match_long_35() {
    let m = WildMatch::new("*332");
    assert!(
        m.matches("332"),
        "Expected pattern {} to match {}",
        "*332",
        "332"
    );
}

#[test]
fn match_long_36() {
    let m = WildMatch::new("*32");
    assert!(
        m.matches("32"),
        "Expected pattern {} to match {}",
        "*32",
        "32"
    );
}

#[test]
fn match_long_37() {
    let m = WildMatch::new("*32");
    assert!(
        m.matches("3232"),
        "Expected pattern {} to match {}",
        "*32",
        "3232"
    );
}

#[test]
fn match_long_38() {
    let m = WildMatch::new("*32");
    assert!(
        m.matches("3232332"),
        "Expected pattern {} to match {}",
        "*32",
        "3232332"
    );
}

#[test]
fn match_long_39() {
    let m = WildMatch::new("*?2");
    assert!(
        m.matches("332"),
        "Expected pattern {} to match {}",
        "*?2",
        "332"
    );
}

#[test]
fn match_long_40() {
    let m = WildMatch::new("*?2");
    assert!(
        m.matches("3332"),
        "Expected pattern {} to match {}",
        "*?2",
        "3332"
    );
}

#[test]
fn match_long_41() {
    let m = WildMatch::new("33*");
    assert!(
        m.matches("333"),
        "Expected pattern {} to match {}",
        "33*",
        "333"
    );
}

#[test]
fn match_long_42() {
    let m = WildMatch::new("da*da*da*");
    assert!(
        m.matches("daaadabadmanda"),
        "Expected pattern {} to match {}",
        "da*da*da*",
        "daaadabadmanda"
    );
}

#[test]
fn match_long_43() {
    let m = WildMatch::new("*?");
    assert!(
        m.matches("xx"),
        "Expected pattern {} to match {}",
        "*?",
        "xx"
    );
}
