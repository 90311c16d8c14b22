use eval_rust::image::{
    entry_line, entry_of, format_line, split_entry, split_lines, storable_entry,
};
use eval_rust::CustomError;

fn texts(lines: &[&str]) -> Vec<String> {
    lines.iter().map(|line| line.to_string()).collect()
}

#[test]
fn an_empty_text_has_no_lines() {
    assert_eq!(split_lines(""), texts(&[]));
}

#[test]
fn a_text_without_line_feed_is_one_line() {
    assert_eq!(split_lines("abc"), texts(&["abc"]));
}

#[test]
fn a_line_feed_ends_a_line_and_starts_none() {
    assert_eq!(split_lines("abc\n"), texts(&["abc"]));
    assert_eq!(split_lines("abc\ndef"), texts(&["abc", "def"]));
    assert_eq!(split_lines("abc\ndef\n"), texts(&["abc", "def"]));
}

#[test]
fn empty_lines_are_lines() {
    assert_eq!(split_lines("\n"), texts(&[""]));
    assert_eq!(split_lines("\n\nabc\n\n"), texts(&["", "", "abc", ""]));
}

#[test]
fn a_carriage_return_before_a_line_feed_belongs_to_the_line_end() {
    assert_eq!(split_lines("abc\r\ndef\r\n"), texts(&["abc", "def"]));
    assert_eq!(split_lines("\r\n"), texts(&[""]));
    assert_eq!(split_lines("a\r\r\nb"), texts(&["a\r", "b"]));
}

#[test]
fn any_other_carriage_return_belongs_to_the_line() {
    assert_eq!(split_lines("abc\rdef"), texts(&["abc\rdef"]));
    assert_eq!(split_lines("abc\r"), texts(&["abc\r"]));
    assert_eq!(split_lines("foo\nbar\n\r\nbaz\r"), texts(&["foo", "bar", "", "baz\r"]));
}

#[test]
fn lines_are_cut_as_the_standard_library_cuts_them() {
    let samples = [
        "",
        "\n",
        "\r",
        "\r\n",
        "a",
        "a\n",
        "a\r\n",
        "a\n\n",
        "a\r\nb\rc\n\rd",
        "é=ü\n\"k\"=\"v\"\r\n",
        "\n\r\n\r\r\n",
    ];
    for sample in samples {
        let expected: Vec<String> = sample.lines().map(|line| line.to_string()).collect();
        assert_eq!(split_lines(sample), expected, "{:?}", sample);
    }
}

#[test]
fn lines_keep_their_characters_beyond_ascii() {
    assert_eq!(split_lines("été\r\nnoël=🎄\n"), texts(&["été", "noël=🎄"]));
    assert_eq!(split_entry("noël=🎄"), Some(("noël".to_string(), "🎄".to_string())));
}

#[test]
fn a_line_is_cut_at_its_first_equals_sign() {
    assert_eq!(split_entry("a=b"), Some(("a".to_string(), "b".to_string())));
    assert_eq!(split_entry("a=b=c"), Some(("a".to_string(), "b=c".to_string())));
    assert_eq!(split_entry("\"k\"=\"v\""), Some(("\"k\"".to_string(), "\"v\"".to_string())));
    assert_eq!(split_entry("clé=valeur"), Some(("clé".to_string(), "valeur".to_string())));
}

#[test]
fn a_side_of_a_line_may_be_empty() {
    assert_eq!(split_entry("="), Some((String::new(), String::new())));
    assert_eq!(split_entry("=b"), Some((String::new(), "b".to_string())));
    assert_eq!(split_entry("a="), Some(("a".to_string(), String::new())));
    assert_eq!(split_entry("=="), Some((String::new(), "=".to_string())));
}

#[test]
fn a_line_without_equals_sign_has_no_sides() {
    assert_eq!(split_entry(""), None);
    assert_eq!(split_entry("invalid data"), None);
}

#[test]
fn a_line_is_key_equals_value_and_a_line_feed() {
    assert_eq!(format_line("\"1\"", "\"un\""), "\"1\"=\"un\"\n");
    assert_eq!(format_line("", ""), "=\n");
    assert_eq!(format_line("a=b", "c"), "a=b=c\n");
}

#[test]
fn a_formatted_line_splits_into_what_it_was_made_of() {
    let line = format_line("key", "value=more");
    let lines = split_lines(&line);
    assert_eq!(lines, texts(&["key=value=more"]));
    assert_eq!(split_entry(&lines[0]), Some(("key".to_string(), "value=more".to_string())));
}

fn no_json() -> serde_json::Error {
    serde_json::from_str::<String>("no json").unwrap_err()
}

#[test]
fn the_line_of_an_entry_is_made_of_its_json_texts() {
    let line = entry_line(serde_json::to_string("1"), serde_json::to_string("un"));
    assert_eq!(line.unwrap(), "\"1\"=\"un\"\n");
    let line = entry_line(Ok("key".to_string()), Ok("value".to_string()));
    assert_eq!(line.unwrap(), "key=value\n");
}

#[test]
fn an_entry_without_json_text_has_no_line() {
    let no_key = entry_line(Err(no_json()), Ok("\"v\"".to_string()));
    assert!(matches!(no_key, Err(CustomError::SerializationError(_))));
    assert_eq!(
        no_key.unwrap_err().to_string(),
        "Serialization Error: Failed to serialize key to JSON"
    );
    let no_value = entry_line(Ok("\"k\"".to_string()), Err(no_json()));
    assert!(matches!(no_value, Err(CustomError::SerializationError(_))));
    assert_eq!(
        no_value.unwrap_err().to_string(),
        "Serialization Error: Failed to serialize value to JSON"
    );
    let neither = entry_line(Err(no_json()), Err(no_json()));
    assert_eq!(
        neither.unwrap_err().to_string(),
        "Serialization Error: Failed to serialize key to JSON"
    );
}

#[test]
fn the_entry_of_a_line_is_made_of_what_its_sides_read() {
    let entry = entry_of(serde_json::from_str("\"1\""), serde_json::from_str(" \"un\" "));
    assert_eq!(entry.unwrap(), ("1".to_string(), "un".to_string()));
}

#[test]
fn a_line_with_a_side_that_is_no_json_string_has_no_entry() {
    let no_key = entry_of(serde_json::from_str("1"), serde_json::from_str("\"un\""));
    assert!(matches!(no_key, Err(CustomError::CacheDbLoadError)));
    let no_value = entry_of(serde_json::from_str("\"1\""), serde_json::from_str("un"));
    assert!(matches!(no_value, Err(CustomError::CacheDbLoadError)));
    let neither = entry_of(Err(no_json()), Err(no_json()));
    assert!(matches!(neither, Err(CustomError::CacheDbLoadError)));
}

#[test]
fn an_entry_is_storable_unless_its_key_holds_an_equals_sign() {
    let s = |text: &str| text.to_string();
    assert!(storable_entry(&s("1"), &s("un")));
    assert!(storable_entry(&s(""), &s("")));
    assert!(storable_entry(&s("key"), &s("a=b")));
    assert!(storable_entry(&s("line\nfeed \"quoted\""), &s("\r\n")));
    assert!(!storable_entry(&s("a=b"), &s("c")));
    assert!(!storable_entry(&s("="), &s("")));
}

#[test]
fn the_line_of_a_storable_entry_gives_the_entry_back() {
    let key = "clé \"1\"".to_string();
    let value = "x=y\n".to_string();
    assert!(storable_entry(&key, &value));
    let line = entry_line(serde_json::to_string(&key), serde_json::to_string(&value)).unwrap();
    let lines = split_lines(&line);
    assert_eq!(lines.len(), 1);
    let (key_text, value_text) = split_entry(&lines[0]).unwrap();
    let entry = entry_of(serde_json::from_str(&key_text), serde_json::from_str(&value_text));
    assert_eq!(entry.unwrap(), (key, value));
}
