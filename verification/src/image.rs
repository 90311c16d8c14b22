//! The text image of a cache: one line per entry, `<key>=<value>`, where both
//! sides are JSON strings. This module frames the lines; the JSON itself is
//! left to the codec.

use vstd::prelude::*;
use crate::errors::CustomError;
use crate::json::{encode, failure, json_parse, json_text, reads_back};
use crate::lru::Entry;
use crate::text::{chars_of, holds, string_of};

verus! {

/// The texts that a vector of strings stands for.
pub open spec fn texts_of(strings: Seq<String>) -> Seq<Seq<char>> {
    strings.map_values(|s: String| s@)
}

/// The first line of a text: what stands before its first line feed, less a
/// carriage return just before that line feed; the whole text where it has
/// no line feed.
pub open spec fn first_line(text: Seq<char>) -> Seq<char> {
    match text.index_of_first('\n') {
        None => text,
        Some(n) => if n > 0 && text[n - 1] == '\r' {
            text.take(n - 1)
        } else {
            text.take(n)
        },
    }
}

/// What follows the first line and its line feed.
pub open spec fn after_first_line(text: Seq<char>) -> Seq<char> {
    match text.index_of_first('\n') {
        None => Seq::empty(),
        Some(n) => text.skip(n + 1),
    }
}

/// The lines of a text. A line ends at a line feed, or at a carriage return
/// followed by one; the last line may end with the text. Neither belongs to
/// the line.
pub open spec fn lines_of(text: Seq<char>) -> Seq<Seq<char>>
    decreases text.len(),
    via lines_of_decreases
{
    if text.len() == 0 {
        Seq::empty()
    } else {
        seq![first_line(text)] + lines_of(after_first_line(text))
    }
}

#[via_fn]
proof fn lines_of_decreases(text: Seq<char>) {
    text.index_of_first_ensures('\n');
}

/// The two sides of a line: what stands before its first `=` and what
/// follows it. A line without `=` has no sides.
pub open spec fn sides_of(line: Seq<char>) -> Option<(Seq<char>, Seq<char>)> {
    match line.index_of_first('=') {
        None => None,
        Some(n) => Some((line.take(n), line.skip(n + 1))),
    }
}

/// The line that holds a key text and a value text.
pub open spec fn line_with(key_text: Seq<char>, value_text: Seq<char>) -> Seq<char> {
    key_text + seq!['='] + value_text + seq!['\n']
}

/// The line that stores an entry.
pub open spec fn line_of(entry: Entry) -> Seq<char> {
    line_with(json_text(entry.0), json_text(entry.1))
}

/// The image of a list of entries: their lines, from the head to the tail.
pub open spec fn image_of(entries: Seq<Entry>) -> Seq<char>
    decreases entries.len(),
{
    if entries.len() == 0 {
        Seq::empty()
    } else {
        image_of(entries.drop_last()) + line_of(entries.last())
    }
}

/// The entry that a line stores: both of its sides are JSON strings.
pub open spec fn decode_line(line: Seq<char>) -> Option<Entry> {
    match sides_of(line) {
        None => None,
        Some((key_text, value_text)) => match (json_parse(key_text), json_parse(value_text)) {
            (Some(key), Some(value)) => Some((key, value)),
            _ => None,
        },
    }
}

/// The entries that lines store, in their order. Empty lines store nothing;
/// one line that stores no entry spoils them all.
pub open spec fn decode_lines(lines: Seq<Seq<char>>) -> Option<Seq<Entry>>
    decreases lines.len(),
{
    if lines.len() == 0 {
        Some(Seq::empty())
    } else {
        match decode_lines(lines.drop_last()) {
            None => None,
            Some(entries) => if lines.last().len() == 0 {
                Some(entries)
            } else {
                match decode_line(lines.last()) {
                    None => None,
                    Some(entry) => Some(entries.push(entry)),
                }
            },
        }
    }
}

/// The entries that a text stores.
pub open spec fn decode_image(text: Seq<char>) -> Option<Seq<Entry>> {
    decode_lines(lines_of(text))
}

/// Lines that do not decode up to some line do not decode as a whole.
pub proof fn lemma_decode_lines_spoiled(lines: Seq<Seq<char>>, n: int)
    requires
        0 <= n <= lines.len(),
        decode_lines(lines.take(n)).is_none(),
    ensures
        decode_lines(lines).is_none(),
    decreases lines.len() - n,
{
    if n < lines.len() {
        assert(lines.take(n + 1).drop_last() =~= lines.take(n));
        lemma_decode_lines_spoiled(lines, n + 1);
    } else {
        assert(lines.take(n) =~= lines);
    }
}

/// What the line of an entry holds before its line feed.
pub open spec fn content_of(entry: Entry) -> Seq<char> {
    json_text(entry.0) + seq!['='] + json_text(entry.1)
}

/// A key whose JSON text holds no `=`, at which its line would be cut too
/// early.
pub open spec fn plain_key(key: Seq<char>) -> bool {
    !json_text(key).contains('=')
}

/// An entry that its line gives back: its key and its value survive the
/// codec, and its key is plain.
pub open spec fn storable(entry: Entry) -> bool {
    &&& reads_back(entry.0)
    &&& reads_back(entry.1)
    &&& plain_key(entry.0)
}

/// Every entry of the list is storable.
pub open spec fn all_storable(entries: Seq<Entry>) -> bool {
    forall|i: int| 0 <= i < entries.len() ==> storable(#[trigger] entries[i])
}

/// Where the first `c` of a text stands, told from a scan: no `c` before
/// index `n`, and one at `n` unless `n` is the end.
pub proof fn lemma_index_of_first(text: Seq<char>, c: char, n: int)
    requires
        0 <= n <= text.len(),
        forall|j: int| 0 <= j < n ==> text[j] != c,
        n < text.len() ==> text[n] == c,
    ensures
        text.index_of_first(c) == if n < text.len() {
            Some(n)
        } else {
            None::<int>
        },
{
    text.index_of_first_ensures(c);
}

/// A text that ends with a line feed, followed by a line and its line feed,
/// has the lines of the text and then that line.
pub proof fn lemma_lines_push(text: Seq<char>, line: Seq<char>)
    requires
        text.len() == 0 || text.last() == '\n',
        !line.contains('\n'),
        line.len() == 0 || line.last() != '\r',
    ensures
        lines_of(text + line + seq!['\n']) == lines_of(text).push(line),
    decreases text.len(),
{
    let whole = text + line + seq!['\n'];
    if text.len() == 0 {
        assert forall|j: int| 0 <= j < line.len() implies whole[j] != '\n' by {}
        lemma_index_of_first(whole, '\n', line.len() as int);
        assert(first_line(whole) =~= line);
        assert(lines_of(whole) == seq![first_line(whole)] + lines_of(after_first_line(whole)));
    } else {
        text.index_of_first_ensures('\n');
        assert(text.contains('\n'));
        let m = text.index_of_first('\n')->0;
        lemma_index_of_first(whole, '\n', m);
        let rest = after_first_line(text);
        assert(first_line(whole) =~= first_line(text));
        assert(after_first_line(whole) =~= rest + line + seq!['\n']);
        lemma_lines_push(rest, line);
    }
}

/// The line of a storable entry gives the entry back.
pub proof fn lemma_content_decodes(entry: Entry)
    requires
        storable(entry),
    ensures
        decode_line(content_of(entry)) == Some(entry),
        content_of(entry).len() > 0,
        !content_of(entry).contains('\n'),
        content_of(entry).last() != '\r',
{
    let key_text = json_text(entry.0);
    let value_text = json_text(entry.1);
    let content = content_of(entry);
    assert forall|j: int| 0 <= j < key_text.len() implies content[j] != '=' by {}
    lemma_index_of_first(content, '=', key_text.len() as int);
    assert(content.take(key_text.len() as int) =~= key_text);
    assert(content.skip(key_text.len() as int + 1) =~= value_text);
    assert(!content.contains('\n')) by {
        if content.contains('\n') {
            let j = choose|j: int| 0 <= j < content.len() && content[j] == '\n';
            if j < key_text.len() {
                assert(key_text[j] >= ' ');
            } else if j > key_text.len() {
                assert(value_text[j - key_text.len() - 1] >= ' ');
            }
        }
    }
}

/// The image of storable entries has one line for each, and these lines
/// give the entries back.
pub proof fn lemma_image_decodes(entries: Seq<Entry>)
    requires
        all_storable(entries),
    ensures
        lines_of(image_of(entries)) == entries.map_values(|entry: Entry| content_of(entry)),
        decode_image(image_of(entries)) == Some(entries),
        image_of(entries).len() == 0 || image_of(entries).last() == '\n',
    decreases entries.len(),
{
    if entries.len() > 0 {
        let front = entries.drop_last();
        let last = entries.last();
        assert(all_storable(front)) by {
            assert forall|i: int| 0 <= i < front.len() implies storable(#[trigger] front[i]) by {}
        }
        lemma_image_decodes(front);
        lemma_content_decodes(last);
        lemma_lines_push(image_of(front), content_of(last));
        assert(image_of(entries) =~= image_of(front) + content_of(last) + seq!['\n']);
        let contents = entries.map_values(|entry: Entry| content_of(entry));
        assert(contents.drop_last() =~= front.map_values(|entry: Entry| content_of(entry)));
        assert(lines_of(image_of(entries)) =~= contents);
    }
}

/// Cuts a text into its lines.
pub fn split_lines(text: &str) -> (lines: Vec<String>)
    ensures
        texts_of(lines@) == lines_of(text@),
{
    let chars = chars_of(text);
    let n: usize = chars.len();
    let mut lines: Vec<String> = Vec::new();
    let mut start: usize = 0;
    assert(text@.skip(0) =~= text@);
    while start < n
        invariant
            start <= n,
            n == chars.len(),
            chars@ == text@,
            lines_of(text@) == texts_of(lines@) + lines_of(text@.skip(start as int)),
        decreases n - start,
    {
        let mut end: usize = start;
        while end < n && chars[end] != '\n'
            invariant
                start <= end <= n,
                n == chars.len(),
                forall|j: int| start <= j < end ==> chars@[j] != '\n',
            decreases n - end,
        {
            end += 1;
        }
        let stop: usize = if end < n && end > start && chars[end - 1] == '\r' {
            end - 1
        } else {
            end
        };
        let next: usize = if end < n {
            end + 1
        } else {
            n
        };
        let line = string_of(&chars, start, stop);
        proof {
            let rest = text@.skip(start as int);
            lemma_index_of_first(rest, '\n', end - start);
            assert(first_line(rest) =~= line@);
            assert(after_first_line(rest) =~= text@.skip(next as int));
            assert(texts_of(lines@.push(line)) + lines_of(text@.skip(next as int)) =~= texts_of(
                lines@,
            ) + lines_of(rest));
        }
        lines.push(line);
        start = next;
    }
    lines
}

/// Cuts a line at its first `=`.
pub fn split_entry(line: &str) -> (sides: Option<(String, String)>)
    ensures
        match sides {
            Some((key_text, value_text)) => sides_of(line@) == Some((key_text@, value_text@)),
            None => sides_of(line@).is_none(),
        },
{
    let chars = chars_of(line);
    let n: usize = chars.len();
    let mut at: usize = 0;
    while at < n && chars[at] != '='
        invariant
            at <= n,
            n == chars.len(),
            forall|j: int| 0 <= j < at ==> chars@[j] != '=',
        decreases n - at,
    {
        at += 1;
    }
    proof {
        lemma_index_of_first(line@, '=', at as int);
    }
    if at < n {
        let key_text = string_of(&chars, 0, at);
        let value_text = string_of(&chars, at + 1, n);
        Some((key_text, value_text))
    } else {
        None
    }
}

/// Writes the line for a key text and a value text.
pub fn format_line(key_text: &str, value_text: &str) -> (line: String)
    ensures
        line@ == line_with(key_text@, value_text@),
{
    proof {
        reveal_strlit("=");
        reveal_strlit("\n");
    }
    let mut line = String::new();
    line.append(key_text);
    line.append("=");
    line.append(value_text);
    line.append("\n");
    line
}

/// Writes the line of an entry from what the codec made of its key and of
/// its value: their JSON texts, or a serialization error if either has
/// none.
pub fn entry_line(
    key_json: Result<String, serde_json::Error>,
    value_json: Result<String, serde_json::Error>,
) -> (line: Result<String, CustomError>)
    ensures
        match (key_json, value_json) {
            (Ok(key_text), Ok(value_text)) => line matches Ok(text) && text@ == line_with(
                key_text@,
                value_text@,
            ),
            _ => line matches Err(error) && error is SerializationError,
        },
{
    let key_text = match key_json {
        Ok(json) => json,
        Err(_) => return Err(
            CustomError::SerializationError(failure("Failed to serialize key to JSON")),
        ),
    };
    let value_text = match value_json {
        Ok(json) => json,
        Err(_) => return Err(
            CustomError::SerializationError(failure("Failed to serialize value to JSON")),
        ),
    };
    Ok(format_line(key_text.as_str(), value_text.as_str()))
}

/// Makes the entry of a line from what the codec read on its two sides:
/// the key and the value, or a load error if either side is no JSON
/// string.
pub fn entry_of(
    key: Result<String, serde_json::Error>,
    value: Result<String, serde_json::Error>,
) -> (entry: Result<(String, String), CustomError>)
    ensures
        match (key, value) {
            (Ok(key), Ok(value)) => entry matches Ok(pair) && pair.0 == key && pair.1 == value,
            _ => entry matches Err(CustomError::CacheDbLoadError),
        },
{
    let key = match key {
        Ok(key) => key,
        Err(_) => return Err(CustomError::CacheDbLoadError),
    };
    let value = match value {
        Ok(value) => value,
        Err(_) => return Err(CustomError::CacheDbLoadError),
    };
    Ok((key, value))
}

/// Tells whether an entry is storable: whether its line gives it back.
/// Every key and every value survives the codec, so it is the key that
/// decides: it must be plain.
pub fn storable_entry(key: &String, value: &String) -> (ok: bool)
    ensures
        ok == storable((key@, value@)),
        ok == plain_key(key@),
        ok ==> decode_line(content_of((key@, value@))) == Some((key@, value@)),
{
    let plain = match encode(key) {
        Ok(key_text) => !holds(key_text.as_str(), '='),
        Err(_) => false,
    };
    let read = match encode(value) {
        Ok(_) => true,
        Err(_) => false,
    };
    proof {
        if plain && read {
            lemma_content_decodes((key@, value@));
        }
    }
    plain && read
}

} // verus!
