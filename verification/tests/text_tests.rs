use namada_wallet::text::{
    clean_address, is_whitespace, parse_menu_choice, parse_usize, strip_key_marker,
    trim_whitespace,
};

const SAMPLES: &[&str] = &[
    "",
    " ",
    "abc",
    "  abc  ",
    "\t\nabc def\r\n",
    "\u{a0}zvknam1qq\u{3000}",
    "\u{2003} mid dle \u{200a}",
    "\u{85}x\u{1680}",
    "\u{200b}x\u{200b}",
    "  \n\t  ",
];

#[test]
fn trim_matches_std_trim() {
    for s in SAMPLES {
        assert_eq!(trim_whitespace(s), s.trim(), "input {:?}", s);
        assert_eq!(clean_address(s), s.trim().to_string(), "input {:?}", s);
    }
}

#[test]
fn whitespace_matches_std() {
    for code in 0u32..0x3100 {
        if let Some(c) = char::from_u32(code) {
            assert_eq!(is_whitespace(c), c.is_whitespace(), "char {:#x}", code);
        }
    }
}

#[test]
fn clean_address_examples() {
    assert_eq!(clean_address("  zvknam1abc \n"), "zvknam1abc");
    assert_eq!(clean_address("zvknam1abc"), "zvknam1abc");
    assert_eq!(clean_address(" \t "), "");
    assert_eq!(clean_address("a b"), "a b");
}

#[test]
fn trim_is_idempotent_on_examples() {
    for s in SAMPLES {
        let once = trim_whitespace(s);
        assert_eq!(trim_whitespace(&once), once);
    }
}

#[test]
fn surrounding_whitespace_is_ignored() {
    assert_eq!(parse_menu_choice(" \t6\r\n"), parse_menu_choice("6"));
    assert_eq!(clean_address("\n\u{a0}key\u{3000}"), clean_address("key"));
}

const KEY_SAMPLES: &[&str] = &[
    "",
    "tpknam1qxyz",
    "ED25519_PK_PREFIXtpknam1qxyz",
    "ED25519_PK_PREFIX",
    "ED25519_PK_PREFIXED25519_PK_PREFIXab",
    "aED25519_PK_PREFIXbED25519_PK_PREFIX",
    "ED25519_PK_ED25519_PK_PREFIXPREFIX",
    "ED25519_PK_PREFI",
    "éED25519_PK_PREFIXü",
];

#[test]
fn strip_matches_std_replace() {
    for s in KEY_SAMPLES {
        assert_eq!(strip_key_marker(s), s.replace("ED25519_PK_PREFIX", ""), "input {:?}", s);
    }
}

#[test]
fn strip_key_marker_examples() {
    assert_eq!(strip_key_marker("ED25519_PK_PREFIXtpknam1qxyz"), "tpknam1qxyz");
    assert_eq!(strip_key_marker("tpknam1qxyz"), "tpknam1qxyz");
    assert_eq!(strip_key_marker("aED25519_PK_PREFIXb"), "ab");
    // Removal goes left to right once: the text that closes up is not searched again.
    assert_eq!(strip_key_marker("ED25519_PK_ED25519_PK_PREFIXPREFIX"), "ED25519_PK_PREFIX");
}

#[test]
fn leading_marker_law_on_examples() {
    for k in KEY_SAMPLES {
        let marked = format!("ED25519_PK_PREFIX{}", k);
        assert_eq!(strip_key_marker(&marked), strip_key_marker(k));
    }
}

const NUMBER_SAMPLES: &[&str] = &[
    "", "+", "-", "0", "7", "+7", "-7", "++7", "007", "12a", "a12", " 1", "1 ", "٣",
    "18446744073709551615", "18446744073709551616", "99999999999999999999999",
    "4294967295", "4294967296",
];

#[test]
fn parse_usize_matches_std() {
    for s in NUMBER_SAMPLES {
        assert_eq!(parse_usize(s), s.parse::<usize>().ok(), "input {:?}", s);
    }
}

#[test]
fn parse_usize_examples() {
    assert_eq!(parse_usize("42"), Some(42));
    assert_eq!(parse_usize("+42"), Some(42));
    assert_eq!(parse_usize("-42"), None);
    assert_eq!(parse_usize(""), None);
    assert_eq!(parse_usize("+"), None);
    assert_eq!(parse_usize("4x"), None);
    assert_eq!(parse_usize(&usize::MAX.to_string()), Some(usize::MAX));
    assert_eq!(parse_usize(&format!("{}0", usize::MAX)), None);
}

#[test]
fn parse_menu_choice_examples() {
    assert_eq!(parse_menu_choice("3\n"), 3);
    assert_eq!(parse_menu_choice("  8  "), 8);
    assert_eq!(parse_menu_choice("eight"), 0);
    assert_eq!(parse_menu_choice(""), 0);
    assert_eq!(parse_menu_choice("-1"), 0);
    assert_eq!(parse_menu_choice("99999999999999999999999"), 0);
}
