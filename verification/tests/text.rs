use goal_digger::text::{
    before, chars_of, contains, contains_outside, decimal, norm, norm_team, same_text, simplify,
    starts_with, surname, to_ascii_lower, to_ascii_upper, trim, white_space, words,
};

#[test]
fn white_space_is_the_unicode_property() {
    for n in 0u32..0x11_0000 {
        if let Some(c) = char::from_u32(n) {
            assert_eq!(white_space(c), c.is_whitespace(), "{:x}", n);
        }
    }
}

#[test]
fn ascii_case_as_in_std() {
    for n in 0u32..0x300 {
        let c = char::from_u32(n).unwrap();
        assert_eq!(to_ascii_upper(c), c.to_ascii_uppercase());
        assert_eq!(to_ascii_lower(c), c.to_ascii_lowercase());
    }
}

#[test]
fn trim_as_in_std() {
    for s in ["", " ", " a", "a ", "\t a b \n", "\u{a0}x\u{3000}", "abc", " \u{2003} ", "é "] {
        assert_eq!(trim(s), s.trim());
    }
}

#[test]
fn norm_trims_and_lowers() {
    assert_eq!(norm("  Spain\n"), "spain");
    assert_eq!(norm("CÔTE D'IVOIRE"), "côte d'ivoire");
    assert_eq!(norm("ΟΔΟΣ"), "οδος");
    assert_eq!(norm("İ"), "i\u{307}");
    assert_eq!(norm("   "), "");
}

#[test]
fn case_and_space_do_not_count() {
    for s in ["spain", "SPAIN", "sPaIn", " Spain ", "\tspain\u{a0}"] {
        assert_eq!(norm(s), "spain");
        assert_eq!(norm_team(s), "spain");
        assert_eq!(norm(norm(s).as_str()), norm(s));
    }
}

#[test]
fn united_states_is_one_team() {
    for s in ["USA", "usa", " United States ", "USMNT", "usmnt"] {
        assert_eq!(norm_team(s), "usa");
    }
    assert_eq!(norm_team("United  States"), "united  states");
    assert_eq!(norm_team("Mexico"), "mexico");
}

#[test]
fn simplify_keeps_ascii_letters() {
    assert_eq!(simplify("Kylian Mbappé"), "kylianmbapp");
    assert_eq!(simplify("O'Neil-2 Jr."), "oneiljr");
    assert_eq!(simplify("\u{212a}ane"), "ane");
    assert_eq!(simplify(""), "");
    assert_eq!(simplify(simplify("N'Golo Kanté").as_str()), "ngolokant");
}

#[test]
fn contains_as_in_std() {
    let hays = ["", "a", "aab", "will it end in a draw?", "éa", "aaaab"];
    let needles = ["", "a", "ab", "aab", "draw", "draws", "é", "b"];
    for h in hays {
        for n in needles {
            assert_eq!(contains(h, n), h.contains(n), "{} in {}", n, h);
            assert_eq!(starts_with(h, n), h.starts_with(n), "{} at {}", n, h);
            assert_eq!(same_text(h, n), h == n);
        }
    }
}

#[test]
fn surname_is_the_last_word() {
    let names = ["Lamine Yamal", "Pedri", " Vinícius  Júnior ", "", "  ", "a\tb\u{2003}c\n"];
    for n in names {
        assert_eq!(surname(n), n.split_whitespace().last().unwrap_or(n));
    }
}

#[test]
fn order_as_in_std() {
    let names = ["", "a", "A", "ab", "b", "é", "z", "\u{ffff}", "\u{1f600}", "aé", "ab "];
    for a in names {
        for b in names {
            assert_eq!(before(a, b), a < b, "{} {}", a, b);
        }
    }
}

#[test]
fn decimal_as_in_std() {
    for n in [0u32, 1, 9, 10, 11, 99, 100, 2026, 65_536, u32::MAX] {
        assert_eq!(decimal(n), n.to_string());
    }
}

#[test]
fn chars_in_order() {
    let v = chars_of("héllo");
    assert_eq!(v, vec!['h', 'é', 'l', 'l', 'o']);
    assert!(chars_of("").is_empty());
}

#[test]
fn surname_occurs_in_the_name() {
    for n in ["Lamine Yamal", " Rodri ", "Kylian Mbappé", "  "] {
        assert!(contains(simplify(n).as_str(), simplify(surname(n)).as_str()));
    }
}

#[test]
fn words_in_lower_case() {
    assert_eq!(words("  Wu-LI,  Jr. "), "wu li jr");
    assert_eq!(words("W. Uli"), "w uli");
    assert_eq!(words("Ó Li\u{a0}7"), "ó li 7");
    assert_eq!(words("武磊"), "武磊");
    assert_eq!(words(" -. "), "");
    assert_eq!(words(""), "");
}

#[test]
fn occurrences_outside_a_longer_one() {
    assert!(contains_outside("congo", "congo", "dr congo"));
    assert!(!contains_outside("dr congo", "congo", "dr congo"));
    assert!(contains_outside("dr congo, congo", "congo", "dr congo"));
    assert!(contains_outside("dr congo", "dr congo", "congo"));
    assert!(contains_outside("congo", "congo", "congo"));
    assert!(!contains_outside("mali", "congo", "dr congo"));
    assert!(contains_outside("ababa", "ba", "bab"));
    assert!(!contains_outside("abab", "ba", "aba"));
    assert!(contains_outside("", "", "x"));
    assert!(!contains_outside("", "x", ""));
}
