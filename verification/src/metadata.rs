//! The metadata of a bug case: lines of the form `key: value`.

use vstd::prelude::*;

use crate::table::Table;
use crate::text;

verus! {

/// Whether a character is white space in the sense of Unicode.
pub open spec fn is_white_space(c: char) -> bool {
    let code = c as u32;
    ||| 0x9 <= code <= 0xd
    ||| code == 0x20
    ||| code == 0x85
    ||| code == 0xa0
    ||| code == 0x1680
    ||| 0x2000 <= code <= 0x200a
    ||| code == 0x2028
    ||| code == 0x2029
    ||| code == 0x202f
    ||| code == 0x205f
    ||| code == 0x3000
}

/// The text without the white space that it begins with.
pub open spec fn trimmed_start(s: Seq<char>) -> Seq<char>
    decreases s.len(),
{
    if s.len() > 0 && is_white_space(s[0]) {
        trimmed_start(s.skip(1))
    } else {
        s
    }
}

/// The text without the white space that it ends with.
pub open spec fn trimmed_end(s: Seq<char>) -> Seq<char>
    decreases s.len(),
{
    if s.len() > 0 && is_white_space(s.last()) {
        trimmed_end(s.drop_last())
    } else {
        s
    }
}

/// The text without the white space that it begins or ends with.
pub open spec fn trimmed(s: Seq<char>) -> Seq<char> {
    trimmed_end(trimmed_start(s))
}

/// The lines of a text: what stands before, between and after its line feeds.
pub open spec fn lines(s: Seq<char>) -> Seq<Seq<char>>
    decreases s.len(),
{
    if s.len() == 0 {
        seq![Seq::empty()]
    } else {
        let before = lines(s.drop_last());
        if s.last() == '\n' {
            before.push(Seq::empty())
        } else {
            before.drop_last().push(before.last().push(s.last()))
        }
    }
}

/// The position of the first colon.
pub open spec fn colon(s: Seq<char>) -> Option<int>
    decreases s.len(),
{
    if s.len() == 0 {
        None
    } else {
        match colon(s.drop_last()) {
            Some(i) => Some(i),
            None => if s.last() == ':' {
                Some(s.len() - 1)
            } else {
                None
            },
        }
    }
}

/// The field that a line gives: none where it is blank, a comment or without a colon.
pub open spec fn field(line: Seq<char>) -> Option<(Seq<char>, Seq<char>)> {
    let content = trimmed(line);
    if content.len() == 0 || content[0] == '#' {
        None
    } else {
        match colon(content) {
            None => None,
            Some(i) => Some((trimmed(content.take(i)), trimmed(content.skip(i + 1)))),
        }
    }
}

/// The fields that lines give; of two lines with the same key the later one counts.
pub open spec fn fields(lines: Seq<Seq<char>>) -> Map<Seq<char>, Seq<char>>
    decreases lines.len(),
{
    if lines.len() == 0 {
        Map::empty()
    } else {
        let before = fields(lines.drop_last());
        match field(lines.last()) {
            None => before,
            Some((key, value)) => before.insert(key, value),
        }
    }
}

/// The value of a field that is there and not empty.
pub open spec fn field_value(fields: Map<Seq<char>, Seq<char>>, key: Seq<char>) -> Seq<char> {
    if fields.contains_key(key) && fields[key].len() > 0 {
        fields[key]
    } else {
        "unspecified"@
    }
}

fn white_space(c: char) -> (r: bool)
    ensures
        r == is_white_space(c),
{
    let code: u32 = c as u32;
    (code >= 0x9 && code <= 0xd) || code == 0x20 || code == 0x85 || code == 0xa0 || code == 0x1680
        || (code >= 0x2000 && code <= 0x200a) || code == 0x2028 || code == 0x2029 || code == 0x202f
        || code == 0x205f || code == 0x3000
}

/// The text of the characters from `from` up to `to`, without the white space at its ends.
fn trimmed_text(chars: &Vec<char>, from: usize, to: usize) -> (r: String)
    requires
        from <= to <= chars.len(),
    ensures
        r@ == trimmed(chars@.subrange(from as int, to as int)),
{
    let (first, last) = trimmed_range(chars, from, to);
    let mut out = String::new();
    let mut i: usize = first;
    while i < last
        invariant
            first <= i <= last <= chars.len(),
            out@ == chars@.subrange(first as int, i as int),
        decreases last - i,
    {
        out.push(chars[i]);
        i = i + 1;
        assert(chars@.subrange(first as int, i - 1).push(chars[i - 1]) =~= chars@.subrange(
            first as int,
            i as int,
        ));
    }
    out
}

/// The range that is left of a range without the white space at its ends.
fn trimmed_range(chars: &Vec<char>, from: usize, to: usize) -> (r: (usize, usize))
    requires
        from <= to <= chars.len(),
    ensures
        from <= r.0 <= r.1 <= to,
        chars@.subrange(r.0 as int, r.1 as int) == trimmed(
            chars@.subrange(from as int, to as int),
        ),
{
    let ghost all: Seq<char> = chars@.subrange(from as int, to as int);
    let mut first: usize = from;
    while first < to && white_space(chars[first])
        invariant
            from <= first <= to <= chars.len(),
            trimmed_start(all) == trimmed_start(chars@.subrange(first as int, to as int)),
        decreases to - first,
    {
        assert(chars@.subrange(first as int, to as int).skip(1) =~= chars@.subrange(
            first + 1,
            to as int,
        ));
        first = first + 1;
    }
    let ghost kept: Seq<char> = chars@.subrange(first as int, to as int);
    assert(trimmed_start(all) == kept);
    let mut last: usize = to;
    while last > first && white_space(chars[last - 1])
        invariant
            from <= first <= last <= to <= chars.len(),
            trimmed_end(kept) == trimmed_end(chars@.subrange(first as int, last as int)),
        decreases last,
    {
        assert(chars@.subrange(first as int, last as int).drop_last() =~= chars@.subrange(
            first as int,
            last - 1,
        ));
        last = last - 1;
    }
    (first, last)
}

/// The position of the first colon at or after `from`.
fn colon_position(chars: &Vec<char>, from: usize, to: usize) -> (r: Option<usize>)
    requires
        from <= to <= chars.len(),
    ensures
        match (r, colon(chars@.subrange(from as int, to as int))) {
            (Some(i), Some(j)) => from <= i < to && i - from == j,
            (None, None) => true,
            _ => false,
        },
{
    let ghost all: Seq<char> = chars@.subrange(from as int, to as int);
    let mut i: usize = from;
    while i < to
        invariant
            from <= i <= to <= chars.len(),
            all == chars@.subrange(from as int, to as int),
            colon(all.take(i - from)) is None,
        decreases to - i,
    {
        let ghost now = all.take(i + 1 - from);
        assert(now.drop_last() =~= all.take(i - from));
        if chars[i] == ':' {
            proof {
                lemma_colon_stays(all, i + 1 - from);
            }
            return Some(i);
        }
        i = i + 1;
    }
    assert(all.take(i - from) =~= all);
    None
}

/// A colon found in the beginning of a text is the first colon of the text.
proof fn lemma_colon_stays(s: Seq<char>, n: int)
    requires
        0 <= n <= s.len(),
        colon(s.take(n)) is Some,
    ensures
        colon(s) == colon(s.take(n)),
    decreases s.len() - n,
{
    if n < s.len() {
        assert(s.take(n + 1).drop_last() =~= s.take(n));
        lemma_colon_stays(s, n + 1);
    } else {
        assert(s.take(n) =~= s);
    }
}

/// Enters the field that the line from `from` up to `to` gives.
fn enter_line(entries: &mut Table<String>, chars: &Vec<char>, from: usize, to: usize)
    requires
        old(entries).wf(),
        from <= to <= chars.len(),
    ensures
        final(entries).wf(),
        final(entries)@ == match field(chars@.subrange(from as int, to as int)) {
            None => old(entries)@,
            Some((key, value)) => old(entries)@.insert(key, value),
        },
{
    let (first, last) = trimmed_range(chars, from, to);
    let ghost content: Seq<char> = chars@.subrange(first as int, last as int);
    if first == last || chars[first] == '#' {
        return;
    }
    if let Some(i) = colon_position(chars, first, last) {
        assert(content.take(i - first) =~= chars@.subrange(first as int, i as int));
        assert(content.skip(i - first + 1) =~= chars@.subrange(i + 1, last as int));
        let key = trimmed_text(chars, first, i);
        let value = trimmed_text(chars, i + 1, last);
        entries.insert(key, value);
    }
}

/// The fields of a metadata text.
pub fn parse_metadata(source: &str) -> (r: Table<String>)
    ensures
        r.wf(),
        r@ == fields(lines(source@)),
{
    let chars = text::chars_of(source);
    let mut entries: Table<String> = Table::new();
    let mut begin: usize = 0;
    let mut i: usize = 0;
    assert(chars@.take(0) =~= Seq::empty());
    assert(lines(chars@.take(0)).drop_last() =~= Seq::empty());
    while i < chars.len()
        invariant
            begin <= i <= chars.len(),
            entries.wf(),
            lines(chars@.take(i as int)).len() > 0,
            lines(chars@.take(i as int)).last() == chars@.subrange(begin as int, i as int),
            entries@ == fields(lines(chars@.take(i as int)).drop_last()),
        decreases chars.len() - i,
    {
        let ghost before = lines(chars@.take(i as int));
        let ghost after = lines(chars@.take(i + 1));
        assert(chars@.take(i + 1).drop_last() =~= chars@.take(i as int));
        if chars[i] == '\n' {
            enter_line(&mut entries, &chars, begin, i);
            assert(after.drop_last() =~= before);
            begin = i + 1;
            assert(after.last() =~= chars@.subrange(begin as int, i + 1));
        } else {
            assert(after.drop_last() =~= before.drop_last());
            assert(after.last() =~= chars@.subrange(begin as int, i + 1));
        }
        i = i + 1;
    }
    assert(chars@.take(i as int) =~= chars@);
    enter_line(&mut entries, &chars, begin, i);
    entries
}

/// The value of a field that is there and not empty.
pub fn metadata_value(entries: &Table<String>, key: &str) -> (r: String)
    requires
        entries.wf(),
    ensures
        r@ == field_value(entries@, key@),
{
    match entries.get(key) {
        Some(value) => {
            if value.as_str().is_empty() {
                "unspecified".to_string()
            } else {
                value.clone()
            }
        },
        None => "unspecified".to_string(),
    }
}

/// A line that is blank or a comment gives no field, wherever it stands.
pub proof fn law_comments_and_blank_lines_are_ignored(
    lines: Seq<Seq<char>>,
    at: int,
    line: Seq<char>,
)
    requires
        0 <= at <= lines.len(),
        trimmed(line).len() == 0 || trimmed(line)[0] == '#',
    ensures
        fields(lines.insert(at, line)) == fields(lines),
    decreases lines.len(),
{
    let after = lines.insert(at, line);
    if at == lines.len() {
        assert(after.drop_last() =~= lines);
    } else {
        assert(after.drop_last() =~= lines.drop_last().insert(at, line));
        assert(after.last() == lines.last());
        law_comments_and_blank_lines_are_ignored(lines.drop_last(), at, line);
    }
}

/// Of two lines with the same key the later one counts, and touches no other field.
pub proof fn law_later_fields_count(
    lines: Seq<Seq<char>>,
    line: Seq<char>,
    key: Seq<char>,
    value: Seq<char>,
    other: Seq<char>,
)
    requires
        field(line) == Some((key, value)),
    ensures
        fields(lines.push(line)).contains_key(key),
        fields(lines.push(line))[key] == value,
        other != key ==> fields(lines.push(line)).contains_key(other) == fields(
            lines,
        ).contains_key(other),
        other != key && fields(lines).contains_key(other) ==> fields(lines.push(line))[other]
            == fields(lines)[other],
{
    assert(lines.push(line).drop_last() =~= lines);
}

/// A field reads back what was written: a key, a colon, a space and a value. The key has no colon
/// and does not start with `#`; neither has white space at its ends.
pub proof fn law_fields_read_back(key: Seq<char>, value: Seq<char>)
    requires
        key.len() > 0 ==> key[0] != '#',
        colon(key) is None,
        trimmed(key) == key,
        trimmed(value) == value,
    ensures
        field(key + seq![':', ' '] + value) == Some((key, value)),
{
    let line = key + seq![':', ' '] + value;
    lemma_clean_ends(key);
    lemma_clean_ends(value);
    assert(line[0] == if key.len() > 0 { key[0] } else { ':' });
    assert(trimmed_start(line) == line);
    let content = if value.len() > 0 {
        line
    } else {
        key + seq![':']
    };
    if value.len() > 0 {
        assert(line.last() == value.last());
    } else {
        assert(line.drop_last() =~= content);
        assert(line.last() == ' ');
        assert(content.last() == ':');
        assert(trimmed_end(content) == content);
    }
    assert(trimmed(line) == content);
    let n: int = key.len() as int;
    assert(content.take(n) =~= key);
    assert(content.take(n + 1).drop_last() =~= key);
    assert(content.take(n + 1).last() == ':');
    lemma_colon_stays(content, n + 1);
    assert(colon(content) == Some(n));
    let rest = content.skip(n + 1);
    if value.len() > 0 {
        assert(rest =~= seq![' '] + value);
        assert(rest.skip(1) =~= value);
        assert(trimmed_start(rest) == trimmed_start(value));
        assert(trimmed(rest) == value);
    } else {
        assert(rest =~= Seq::empty());
        assert(value =~= Seq::empty());
    }
}

/// What a line gives can be written and read back: the key has no colon and does not start with
/// `#`, and neither the key nor the value has white space at its ends.
pub proof fn law_fields_can_be_written_back(line: Seq<char>)
    ensures
        field(line) matches Some((key, value)) ==> {
            &&& key.len() > 0 ==> key[0] != '#'
            &&& colon(key) is None
            &&& trimmed(key) == key
            &&& trimmed(value) == value
            &&& field(key + seq![':', ' '] + value) == field(line)
        },
{
    let content = trimmed(line);
    if let Some((key, value)) = field(line) {
        if let Some(i) = colon(content) {
            lemma_colon_first(content);
            lemma_trimmed_twice(content.take(i));
            lemma_trimmed_twice(content.skip(i + 1));
            lemma_trimmed_twice(line);
            lemma_clean_ends(content);
            lemma_part_without_colon(content.take(i));
            if key.len() > 0 {
                assert(trimmed_start(content.take(i)) == content.take(i)) by {
                    assert(i == 0 ==> trimmed(content.take(i)).len() == 0);
                    assert(content.take(i)[0] == content[0]);
                }
                lemma_trimmed_end_prefix(content.take(i));
                assert(key[0] == content[0]);
            }
            law_fields_read_back(key, value);
        }
    }
}

/// Before the first colon there is none.
proof fn lemma_colon_first(s: Seq<char>)
    ensures
        colon(s) matches Some(i) ==> 0 <= i < s.len() && s[i] == ':' && colon(s.take(i)) is None,
    decreases s.len(),
{
    if s.len() > 0 {
        lemma_colon_first(s.drop_last());
        if let Some(i) = colon(s) {
            assert(s.drop_last().take(i) =~= s.take(i));
            if colon(s.drop_last()) is None {
                assert(s.take(i) =~= s.drop_last());
            }
        }
    }
}

/// A text without a colon stays without one when it is trimmed.
proof fn lemma_part_without_colon(s: Seq<char>)
    requires
        colon(s) is None,
    ensures
        colon(trimmed(s)) is None,
{
    lemma_no_colon(s);
    lemma_trimmed_start_suffix(s);
    lemma_trimmed_end_prefix(trimmed_start(s));
    let part = trimmed(s);
    assert forall|i: int| 0 <= i < part.len() implies part[i] != ':' by {
        assert(part[i] == s[i + (s.len() - trimmed_start(s).len())]);
    }
    lemma_no_colon(part);
}

/// There is no colon to be found exactly where no character is one.
proof fn lemma_no_colon(s: Seq<char>)
    ensures
        colon(s) is None <==> forall|i: int| 0 <= i < s.len() ==> s[i] != ':',
    decreases s.len(),
{
    if s.len() > 0 {
        let rest = s.drop_last();
        lemma_no_colon(rest);
        assert(forall|i: int| 0 <= i < rest.len() ==> rest[i] == #[trigger] s[i]);
        assert(forall|i: int| 0 <= i < rest.len() ==> #[trigger] rest[i] == s[i]);
        assert(s[s.len() - 1] == s.last());
    }
}

/// Trimming at the start leaves a suffix that does not start with white space.
proof fn lemma_trimmed_start_suffix(s: Seq<char>)
    ensures
        trimmed_start(s).len() <= s.len(),
        trimmed_start(s) == s.skip(s.len() - trimmed_start(s).len()),
        trimmed_start(s).len() > 0 ==> !is_white_space(trimmed_start(s)[0]),
    decreases s.len(),
{
    if s.len() > 0 && is_white_space(s[0]) {
        lemma_trimmed_start_suffix(s.skip(1));
        let n = s.skip(1).len() - trimmed_start(s).len();
        assert(s.skip(1).skip(n) =~= s.skip(n + 1));
    } else {
        assert(s.skip(0) =~= s);
    }
}

/// Trimming at the end leaves a prefix that does not end with white space.
proof fn lemma_trimmed_end_prefix(s: Seq<char>)
    ensures
        trimmed_end(s).len() <= s.len(),
        trimmed_end(s) == s.take(trimmed_end(s).len() as int),
        trimmed_end(s).len() > 0 ==> !is_white_space(trimmed_end(s).last()),
    decreases s.len(),
{
    if s.len() > 0 && is_white_space(s.last()) {
        lemma_trimmed_end_prefix(s.drop_last());
        let n = trimmed_end(s).len() as int;
        assert(s.drop_last().take(n) =~= s.take(n));
    } else {
        assert(s.take(s.len() as int) =~= s);
    }
}

/// Trimming twice does no more than trimming once.
proof fn lemma_trimmed_twice(s: Seq<char>)
    ensures
        trimmed(trimmed(s)) == trimmed(s),
{
    let start = trimmed_start(s);
    let part = trimmed(s);
    lemma_trimmed_start_suffix(s);
    lemma_trimmed_end_prefix(start);
    if part.len() > 0 {
        assert(part[0] == start[0]);
    }
}

/// A text that trimming leaves as it is has no white space at its ends.
proof fn lemma_clean_ends(s: Seq<char>)
    requires
        trimmed(s) == s,
    ensures
        s.len() > 0 ==> !is_white_space(s[0]) && !is_white_space(s.last()),
        trimmed_start(s) == s,
{
    lemma_trimmed_length(s);
    lemma_trimmed_length(trimmed_start(s));
    if s.len() > 0 && is_white_space(s[0]) {
        lemma_trimmed_length(s.skip(1));
    } else if s.len() > 0 && is_white_space(s.last()) {
        lemma_trimmed_length(s.drop_last());
    }
}

/// Trimming never makes a text longer.
proof fn lemma_trimmed_length(s: Seq<char>)
    ensures
        trimmed_start(s).len() <= s.len(),
        trimmed_end(s).len() <= s.len(),
    decreases s.len(),
{
    if s.len() > 0 {
        lemma_trimmed_length(s.skip(1));
        lemma_trimmed_length(s.drop_last());
    }
}

/// The lines of a text, joined by line feeds, make up the text, and none of them has one.
pub proof fn law_lines_make_up_the_text(s: Seq<char>)
    ensures
        lines(s).len() > 0,
        text::joined(lines(s), seq!['\n']) == s,
        forall|i: int, k: int|
            0 <= i < lines(s).len() && 0 <= k < lines(s)[i].len() ==> #[trigger] lines(s)[i][k]
                != '\n',
    decreases s.len(),
{
    let all = lines(s);
    let feed = seq!['\n'];
    if s.len() == 0 {
        assert(text::joined(all, feed) =~= s);
    } else {
        let rest = s.drop_last();
        let before = lines(rest);
        law_lines_make_up_the_text(rest);
        assert(s =~= rest.push(s.last()));
        if s.last() == '\n' {
            assert(all.drop_last() =~= before);
            assert(text::joined(before, feed) + feed + Seq::<char>::empty() =~= s);
            assert forall|i: int, k: int| 0 <= i < all.len() && 0 <= k < all[i].len() implies
                #[trigger] all[i][k] != '\n' by {
                if i < before.len() {
                    assert(before[i][k] != '\n');
                }
            }
        } else {
            assert(all.len() == before.len());
            if before.len() == 1 {
                assert(text::joined(all, feed) =~= s);
            } else {
                assert(all.drop_last() =~= before.drop_last());
                assert(text::joined(before.drop_last(), feed) + feed + before.last().push(s.last())
                    =~= (text::joined(before.drop_last(), feed) + feed + before.last()).push(
                    s.last(),
                ));
            }
            assert forall|i: int, k: int| 0 <= i < all.len() && 0 <= k < all[i].len() implies
                #[trigger] all[i][k] != '\n' by {
                if i < before.len() - 1 {
                    assert(before[i][k] != '\n');
                } else if k < before.last().len() {
                    assert(before[before.len() - 1][k] != '\n');
                }
            }
        }
    }
}

/// Trimming takes white space off both ends, nothing else, and all of it.
pub proof fn law_trimming_takes_white_space_off_the_ends(s: Seq<char>)
    ensures
        trimmed(s).len() > 0 ==> !is_white_space(trimmed(s)[0]) && !is_white_space(
            trimmed(s).last(),
        ),
        exists|front: Seq<char>, back: Seq<char>|
            {
                &&& s == #[trigger] (front + trimmed(s) + back)
                &&& forall|i: int| 0 <= i < front.len() ==> is_white_space(#[trigger] front[i])
                &&& forall|i: int| 0 <= i < back.len() ==> is_white_space(#[trigger] back[i])
            },
{
    let start = trimmed_start(s);
    lemma_trimmed_start_suffix(s);
    lemma_trimmed_end_prefix(start);
    lemma_taken_off_start(s);
    lemma_taken_off_end(start);
    let n: int = s.len() - start.len();
    let m: int = trimmed(s).len() as int;
    let front = s.take(n);
    let back = start.skip(m);
    if m > 0 {
        assert(trimmed(s)[0] == start[0]);
    }
    assert(s =~= front + trimmed(s) + back);
}

proof fn lemma_taken_off_start(s: Seq<char>)
    ensures
        trimmed_start(s).len() <= s.len(),
        forall|i: int|
            0 <= i < s.len() - trimmed_start(s).len() ==> is_white_space(#[trigger] s[i]),
    decreases s.len(),
{
    if s.len() > 0 && is_white_space(s[0]) {
        let rest = s.skip(1);
        lemma_taken_off_start(rest);
        assert forall|i: int| 0 <= i < s.len() - trimmed_start(s).len() implies is_white_space(
            #[trigger] s[i],
        ) by {
            if i > 0 {
                assert(rest[i - 1] == s[i]);
            }
        }
    }
}

proof fn lemma_taken_off_end(s: Seq<char>)
    ensures
        trimmed_end(s).len() <= s.len(),
        forall|i: int|
            0 <= i < s.len() - trimmed_end(s).len() ==> is_white_space(
                #[trigger] s.skip(trimmed_end(s).len() as int)[i],
            ),
    decreases s.len(),
{
    let n: int = trimmed_end(s).len() as int;
    if s.len() > 0 && is_white_space(s.last()) {
        let rest = s.drop_last();
        lemma_taken_off_end(rest);
        assert forall|i: int| 0 <= i < s.len() - n implies is_white_space(#[trigger] s.skip(n)[i]) by {
            if i < rest.len() - n {
                assert(rest.skip(n)[i] == s[n + i]);
            }
        }
    }
}

/// White space is what Unicode calls so.
pub proof fn law_white_space_is_that_of_unicode(c: char)
    ensures
        is_white_space(c) <==> seq![
            '\u{9}', '\u{a}', '\u{b}', '\u{c}', '\u{d}', '\u{20}', '\u{85}', '\u{a0}',
            '\u{1680}', '\u{2000}', '\u{2001}', '\u{2002}', '\u{2003}', '\u{2004}', '\u{2005}',
            '\u{2006}', '\u{2007}', '\u{2008}', '\u{2009}', '\u{200a}', '\u{2028}', '\u{2029}',
            '\u{202f}', '\u{205f}', '\u{3000}',
        ].contains(c),
{
    let all = seq![
        '\u{9}', '\u{a}', '\u{b}', '\u{c}', '\u{d}', '\u{20}', '\u{85}', '\u{a0}', '\u{1680}',
        '\u{2000}', '\u{2001}', '\u{2002}', '\u{2003}', '\u{2004}', '\u{2005}', '\u{2006}',
        '\u{2007}', '\u{2008}', '\u{2009}', '\u{200a}', '\u{2028}', '\u{2029}', '\u{202f}',
        '\u{205f}', '\u{3000}',
    ];
    if is_white_space(c) {
        let code: int = c as int;
        let i: int = if code <= 0xd {
            code - 9
        } else if code == 0x20 {
            5
        } else if code == 0x85 {
            6
        } else if code == 0xa0 {
            7
        } else if code == 0x1680 {
            8
        } else if code <= 0x200a {
            code - 0x2000 + 9
        } else if code == 0x2028 {
            20
        } else if code == 0x2029 {
            21
        } else if code == 0x202f {
            22
        } else if code == 0x205f {
            23
        } else {
            24
        };
        assert(all[i] == c);
    }
}

/// A line gives a field exactly where, trimmed, it has a colon and does not start with `#`: the key
/// is what stands before the first colon and the value what stands after it, both trimmed.
pub proof fn law_the_first_colon_separates(line: Seq<char>)
    ensures
        field(line) is None <==> (trimmed(line).len() > 0 && trimmed(line)[0] == '#') || forall|
            i: int,
        |
            0 <= i < trimmed(line).len() ==> trimmed(line)[i] != ':',
        field(line) matches Some((key, value)) ==> exists|left: Seq<char>, right: Seq<char>|
            {
                &&& trimmed(line) == #[trigger] (left + seq![':'] + right)
                &&& forall|i: int| 0 <= i < left.len() ==> left[i] != ':'
                &&& key == trimmed(left)
                &&& value == trimmed(right)
            },
{
    let content = trimmed(line);
    lemma_no_colon(content);
    lemma_colon_first(content);
    if let Some(i) = colon(content) {
        let left = content.take(i);
        let right = content.skip(i + 1);
        lemma_no_colon(left);
        assert(content =~= left + seq![':'] + right);
    }
}

/// Only lines with a field count: without one, a text has no fields, and a line that gives none may
/// stand anywhere.
pub proof fn law_lines_without_a_field_are_ignored(
    lines: Seq<Seq<char>>,
    at: int,
    line: Seq<char>,
)
    requires
        0 <= at <= lines.len(),
        field(line) is None,
    ensures
        fields(Seq::empty()) == Map::<Seq<char>, Seq<char>>::empty(),
        fields(lines.insert(at, line)) == fields(lines),
    decreases lines.len(),
{
    let after = lines.insert(at, line);
    if at == lines.len() {
        assert(after.drop_last() =~= lines);
    } else {
        assert(after.drop_last() =~= lines.drop_last().insert(at, line));
        assert(after.last() == lines.last());
        law_lines_without_a_field_are_ignored(lines.drop_last(), at, line);
    }
}

/// A field has the value that the metadata give it, and `unspecified` where they give none or an
/// empty one.
pub proof fn law_missing_fields_are_unspecified(
    entries: Map<Seq<char>, Seq<char>>,
    key: Seq<char>,
)
    ensures
        entries.contains_key(key) && entries[key].len() > 0 ==> field_value(entries, key)
            == entries[key],
        !entries.contains_key(key) ==> field_value(entries, key) == "unspecified"@,
        entries.contains_key(key) && entries[key].len() == 0 ==> field_value(entries, key)
            == "unspecified"@,
{
}

} // verus!
