use pts_bot::jsonc::Reader;

fn strip(input: &str) -> Vec<u8> {
    let mut reader = Reader::new(input.as_bytes());
    let mut output = reader.filter(input.as_bytes());
    output.extend(reader.finish());
    output
}

fn test(input: &str, expected_output: &str) {
    let output = strip(input);
    assert_eq!(expected_output.len(), output.len());
    assert_eq!(expected_output.as_bytes(), &output[..]);
}

#[test]
fn plain() {
    test("abcd\nefgh", "abcd\nefgh");
}

#[test]
fn quote() {
    test("\"abcd\"\nefgh", "\"abcd\"\nefgh");
    test("\"ab/cd\"\nefgh", "\"ab/cd\"\nefgh");
    test("\"ab//cd\"\nefgh", "\"ab//cd\"\nefgh");
}

#[test]
fn comment() {
    test("// abcd\nefgh", "\nefgh");
    test("abcd // efgh\nijkl", "abcd \nijkl");
    test("\"abcd\" // efgh\nijkl", "\"abcd\" \nijkl");
}

#[test]
fn jsonc_state_carries_across_chunks() {
    let input = "{\"a\": 1 // one\n, \"b//\": 2 / 3}/";
    let expected = strip(input);
    assert_eq!(expected, b"{\"a\": 1 \n, \"b//\": 2 / 3}/".to_vec());
    for cut in 0..input.len() {
        let mut reader = Reader::new(());
        let mut out = reader.filter(&input.as_bytes()[..cut]);
        out.extend(reader.filter(&input.as_bytes()[cut..]));
        out.extend(reader.finish());
        assert_eq!(out, expected);
    }
}

#[test]
fn jsonc_lone_slash_is_kept() {
    test("a/b", "a/b");
    test("a/\"b\"", "a/\"b\"");
    test("a/", "a/");
    test("/", "/");
}
