use etopa::url::decode_url;

#[test]
fn decodes_escapes() {
    assert_eq!(decode_url("otpauth%3A%2F%2Ftotp%2FGitHub%3Aalice%3Fsecret%3DJBSWY3DPEHPK3PXP"), "otpauth://totp/GitHub:alice?secret=JBSWY3DPEHPK3PXP");
    assert_eq!(decode_url("a%20b%21%22%23%24%26%27%28%29"), "a b!\"#$&'()");
    assert_eq!(decode_url("%2A%2B%2C%2D%2E%3B%3C%3E%40%5B%5C%5D%7B%7C%7D"), "*+,-.;<>@[\\]{|}");
    assert_eq!(decode_url("plain"), "plain");
    assert_eq!(decode_url(""), "");
}

#[test]
fn replacements_apply_in_table_order() {
    // %25 becomes % before %2A is replaced
    assert_eq!(decode_url("%252A"), "*");
    // %3A is replaced after %25, so %253A decodes to a colon as well
    assert_eq!(decode_url("%253A"), ":");
    // %7D is the last replacement: %257D gives a brace
    assert_eq!(decode_url("%257D"), "}");
    // lowercase escapes and unknown ones stay
    assert_eq!(decode_url("%2a%41%"), "%2a%41%");
}

#[test]
fn matches_std_replace_chain() {
    let table = [
        ("%20", " "), ("%21", "!"), ("%22", "\""), ("%23", "#"), ("%24", "$"), ("%25", "%"), ("%26", "&"),
        ("%27", "'"), ("%28", "("), ("%29", ")"), ("%2A", "*"), ("%2B", "+"), ("%2C", ","), ("%2D", "-"),
        ("%2E", "."), ("%2F", "/"), ("%3A", ":"), ("%3B", ";"), ("%3C", "<"), ("%3D", "="), ("%3E", ">"),
        ("%3F", "?"), ("%40", "@"), ("%5B", "["), ("%5C", "\\"), ("%5D", "]"), ("%7B", "{"), ("%7C", "|"),
        ("%7D", "}"),
    ];
    for input in ["%%2525%2A", "%2%20", "100%25%20sure%3F", "%7B%22a%22%3A1%7D", "%5C%5C%255C"] {
        let mut expected = input.to_string();
        for (from, to) in table {
            expected = expected.replace(from, to);
        }
        assert_eq!(decode_url(input), expected, "input {:?}", input);
    }
}
