//! JSON documents and how they are written.

use vstd::prelude::*;
use vstd::string::StringExecFns;

use crate::text;
use crate::text::{push_bool, push_u64};

verus! {

/// A JSON document.
pub enum Json {
    Null,
    Bool(bool),
    Number(int),
    Text(Seq<char>),
    /// A document that is already written.
    Written(Seq<char>),
    Array(Seq<Json>),
    Object(Seq<(Seq<char>, Json)>),
}

/// How a character is written within a string.
pub open spec fn escaped_char(c: char) -> Seq<char> {
    if c == '"' {
        seq!['\\', '"']
    } else if c == '\\' {
        seq!['\\', '\\']
    } else if c == '\n' {
        seq!['\\', 'n']
    } else if c == '\r' {
        seq!['\\', 'r']
    } else if c == '\t' {
        seq!['\\', 't']
    } else if (c as u32) < 0x20 {
        seq!['\\', 'u'] + text::hex_digits(c as nat, 4)
    } else {
        seq![c]
    }
}

/// How the characters of a string are written.
pub open spec fn escaped(s: Seq<char>) -> Seq<char>
    decreases s.len(),
{
    if s.len() == 0 {
        Seq::empty()
    } else {
        escaped(s.drop_last()) + escaped_char(s.last())
    }
}

/// How a string is written.
pub open spec fn string_text(s: Seq<char>) -> Seq<char> {
    seq!['"'] + escaped(s) + seq!['"']
}

/// How a document is written.
pub open spec fn render(json: Json) -> Seq<char>
    decreases json,
{
    match json {
        Json::Null => "null"@,
        Json::Bool(b) => text::bool_text(b),
        Json::Number(n) => text::decimal(n),
        Json::Text(s) => string_text(s),
        Json::Written(t) => t,
        Json::Array(items) => seq!['['] + items_text(items) + seq![']'],
        Json::Object(members) => seq!['{'] + members_text(members) + seq!['}'],
    }
}

/// How the items of an array are written.
pub open spec fn items_text(items: Seq<Json>) -> Seq<char>
    decreases items,
{
    if items.len() == 0 {
        Seq::empty()
    } else {
        after_comma(items_text(items.subrange(0, items.len() - 1)), items.len() > 1) + render(
            items[items.len() - 1],
        )
    }
}

/// How the members of an object are written.
pub open spec fn members_text(members: Seq<(Seq<char>, Json)>) -> Seq<char>
    decreases members,
{
    if members.len() == 0 {
        Seq::empty()
    } else {
        after_comma(members_text(members.subrange(0, members.len() - 1)), members.len() > 1)
            + member_start(members[members.len() - 1].0) + render(members[members.len() - 1].1)
    }
}

/// What comes before an item or a member: a comma where it is not the first.
pub open spec fn after_comma(before: Seq<char>, comma: bool) -> Seq<char> {
    if comma {
        before.push(',')
    } else {
        before
    }
}

/// How a member starts: with its name in quotes and a colon.
pub open spec fn member_start(name: Seq<char>) -> Seq<char> {
    seq!['"'] + name + seq!['"', ':']
}

/// The document of a text that may be missing.
pub open spec fn optional_text(value: Option<String>) -> Json {
    match value {
        Some(s) => Json::Text(s@),
        None => Json::Null,
    }
}

/// The document of a list of texts.
pub open spec fn text_array(values: Seq<String>) -> Json {
    Json::Array(values.map_values(|s: String| Json::Text(s@)))
}

/// Appends a character as it is written within a string.
fn push_escaped_char(out: &mut String, c: char)
    ensures
        final(out)@ == old(out)@ + escaped_char(c),
{
    if c == '"' {
        out.push('\\');
        out.push('"');
    } else if c == '\\' {
        out.push('\\');
        out.push('\\');
    } else if c == '\n' {
        out.push('\\');
        out.push('n');
    } else if c == '\r' {
        out.push('\\');
        out.push('r');
    } else if c == '\t' {
        out.push('\\');
        out.push('t');
    } else if (c as u32) < 0x20 {
        out.push('\\');
        out.push('u');
        text::push_hex_digits(out, c as u64, 4);
    } else {
        out.push(c);
    }
    assert(out@ =~= old(out)@ + escaped_char(c));
}

/// Appends a string as it is written.
pub fn push_json_string(out: &mut String, value: &str)
    ensures
        final(out)@ == old(out)@ + string_text(value@),
{
    out.push('"');
    let ghost start: Seq<char> = out@;
    assert(start =~= start + escaped(value@.take(0)));
    for c in it: value.chars()
        invariant
            out@ == start + escaped(value@.take(it.index())),
            it.seq() == value@,
    {
        push_escaped_char(out, c);
        proof {
            let now = value@.take(it.index() + 1);
            assert(now.drop_last() =~= value@.take(it.index()));
            assert(now.last() == c);
            assert(out@ =~= start + escaped(now));
        }
    }
    assert(value@.take(value@.len() as int) =~= value@);
    out.push('"');
    assert(out@ =~= old(out)@ + string_text(value@));
}

/// Appends a text that may be missing.
pub fn push_optional_string(out: &mut String, value: &Option<String>)
    ensures
        final(out)@ == old(out)@ + render(optional_text(*value)),
{
    match value {
        Some(value) => push_json_string(out, value.as_str()),
        None => out.append("null"),
    }
}

/// An object in the course of being written. Its view is the members so far.
pub struct ObjectWriter {
    out: String,
    empty: bool,
    members: Ghost<Seq<(Seq<char>, Json)>>,
}

impl View for ObjectWriter {
    type V = Seq<(Seq<char>, Json)>;

    closed spec fn view(&self) -> Seq<(Seq<char>, Json)> {
        self.members@
    }
}

impl ObjectWriter {
    /// What is written is the members so far.
    pub closed spec fn wf(&self) -> bool {
        &&& self.out@ == seq!['{'] + members_text(self.members@)
        &&& self.empty == (self.members@.len() == 0)
    }

    /// An object without members.
    pub fn new() -> (r: Self)
        ensures
            r.wf(),
            r@ == Seq::<(Seq<char>, Json)>::empty(),
    {
        let mut out = String::new();
        out.push('{');
        assert(out@ =~= seq!['{'] + members_text(Seq::empty()));
        ObjectWriter { out, empty: true, members: Ghost(Seq::empty()) }
    }

    /// Writes a member whose value is already written.
    fn member(&mut self, name: &str, value: &str, json: Ghost<Json>)
        requires
            old(self).wf(),
            value@ == render(json@),
        ensures
            final(self).wf(),
            final(self)@ == old(self)@.push((name@, json@)),
    {
        if !self.empty {
            self.out.push(',');
        }
        self.out.push('"');
        self.out.append(name);
        self.out.push('"');
        self.out.push(':');
        self.out.append(value);
        self.empty = false;
        self.members = Ghost(self.members@.push((name@, json@)));
        proof {
            let members = self.members@;
            assert(members.subrange(0, members.len() - 1) =~= old(self).members@);
            assert(self.out@ =~= seq!['{'] + members_text(members));
        }
    }

    /// Writes a member that is a truth value.
    pub fn bool(&mut self, name: &str, value: bool)
        requires
            old(self).wf(),
        ensures
            final(self).wf(),
            final(self)@ == old(self)@.push((name@, Json::Bool(value))),
    {
        let mut text = String::new();
        push_bool(&mut text, value);
        assert(text@ =~= text::bool_text(value));
        self.member(name, text.as_str(), Ghost(Json::Bool(value)));
    }

    /// Writes a member that is a number.
    pub fn number(&mut self, name: &str, value: u64)
        requires
            old(self).wf(),
        ensures
            final(self).wf(),
            final(self)@ == old(self)@.push((name@, Json::Number(value as int))),
    {
        let mut text = String::new();
        push_u64(&mut text, value);
        assert(text@ =~= text::decimal(value as int));
        self.member(name, text.as_str(), Ghost(Json::Number(value as int)));
    }

    /// Writes a member that is a number.
    pub fn count(&mut self, name: &str, value: usize)
        requires
            old(self).wf(),
        ensures
            final(self).wf(),
            final(self)@ == old(self)@.push((name@, Json::Number(value as int))),
    {
        self.number(name, value as u64);
    }

    /// Writes a member that is a text.
    pub fn text(&mut self, name: &str, value: &str)
        requires
            old(self).wf(),
        ensures
            final(self).wf(),
            final(self)@ == old(self)@.push((name@, Json::Text(value@))),
    {
        let mut text = String::new();
        push_json_string(&mut text, value);
        assert(text@ =~= string_text(value@));
        self.member(name, text.as_str(), Ghost(Json::Text(value@)));
    }

    /// Writes a member that is a text or missing.
    pub fn optional(&mut self, name: &str, value: &Option<String>)
        requires
            old(self).wf(),
        ensures
            final(self).wf(),
            final(self)@ == old(self)@.push((name@, optional_text(*value))),
    {
        let mut text = String::new();
        push_optional_string(&mut text, value);
        assert(text@ =~= render(optional_text(*value)));
        self.member(name, text.as_str(), Ghost(optional_text(*value)));
    }

    /// Writes a member that is a document already written.
    pub fn written(&mut self, name: &str, value: &str)
        requires
            old(self).wf(),
        ensures
            final(self).wf(),
            final(self)@ == old(self)@.push((name@, Json::Written(value@))),
    {
        self.member(name, value, Ghost(Json::Written(value@)));
    }

    /// Writes a member that is an object.
    pub fn object(&mut self, name: &str, value: ObjectWriter)
        requires
            old(self).wf(),
            value.wf(),
        ensures
            final(self).wf(),
            final(self)@ == old(self)@.push((name@, Json::Object(value@))),
    {
        let ghost json: Json = Json::Object(value@);
        let text = value.finish();
        self.member(name, text.as_str(), Ghost(json));
    }

    /// Writes a member that is an array.
    pub fn array(&mut self, name: &str, value: ArrayWriter)
        requires
            old(self).wf(),
            value.wf(),
        ensures
            final(self).wf(),
            final(self)@ == old(self)@.push((name@, Json::Array(value@))),
    {
        let ghost json: Json = Json::Array(value@);
        let text = value.finish();
        self.member(name, text.as_str(), Ghost(json));
    }

    /// The object as it is written.
    pub fn finish(self) -> (r: String)
        requires
            self.wf(),
        ensures
            r@ == render(Json::Object(self@)),
    {
        let mut out = self.out;
        out.push('}');
        assert(out@ =~= render(Json::Object(self@)));
        out
    }
}

/// An array in the course of being written. Its view is the items so far.
pub struct ArrayWriter {
    out: String,
    empty: bool,
    items: Ghost<Seq<Json>>,
}

impl View for ArrayWriter {
    type V = Seq<Json>;

    closed spec fn view(&self) -> Seq<Json> {
        self.items@
    }
}

impl ArrayWriter {
    /// What is written is the items so far.
    pub closed spec fn wf(&self) -> bool {
        &&& self.out@ == seq!['['] + items_text(self.items@)
        &&& self.empty == (self.items@.len() == 0)
    }

    /// An array without items.
    pub fn new() -> (r: Self)
        ensures
            r.wf(),
            r@ == Seq::<Json>::empty(),
    {
        let mut out = String::new();
        out.push('[');
        assert(out@ =~= seq!['['] + items_text(Seq::empty()));
        ArrayWriter { out, empty: true, items: Ghost(Seq::empty()) }
    }

    /// Writes an item that is already written.
    fn item(&mut self, value: &str, json: Ghost<Json>)
        requires
            old(self).wf(),
            value@ == render(json@),
        ensures
            final(self).wf(),
            final(self)@ == old(self)@.push(json@),
    {
        if !self.empty {
            self.out.push(',');
        }
        self.out.append(value);
        self.empty = false;
        self.items = Ghost(self.items@.push(json@));
        proof {
            let items = self.items@;
            assert(items.subrange(0, items.len() - 1) =~= old(self).items@);
            assert(self.out@ =~= seq!['['] + items_text(items));
        }
    }

    /// Writes an item that is a text.
    pub fn text(&mut self, value: &str)
        requires
            old(self).wf(),
        ensures
            final(self).wf(),
            final(self)@ == old(self)@.push(Json::Text(value@)),
    {
        let mut text = String::new();
        push_json_string(&mut text, value);
        assert(text@ =~= string_text(value@));
        self.item(text.as_str(), Ghost(Json::Text(value@)));
    }

    /// Writes an item that is an object.
    pub fn object(&mut self, value: ObjectWriter)
        requires
            old(self).wf(),
            value.wf(),
        ensures
            final(self).wf(),
            final(self)@ == old(self)@.push(Json::Object(value@)),
    {
        let ghost json: Json = Json::Object(value@);
        let text = value.finish();
        self.item(text.as_str(), Ghost(json));
    }

    /// The array as it is written.
    pub fn finish(self) -> (r: String)
        requires
            self.wf(),
        ensures
            r@ == render(Json::Array(self@)),
    {
        let mut out = self.out;
        out.push(']');
        assert(out@ =~= render(Json::Array(self@)));
        out
    }
}

/// An array of texts.
pub fn text_items(values: &Vec<String>) -> (r: ArrayWriter)
    ensures
        r.wf(),
        Json::Array(r@) == text_array(values@),
{
    let mut array = ArrayWriter::new();
    let ghost all: Seq<Json> = values@.map_values(|s: String| Json::Text(s@));
    let mut i: usize = 0;
    assert(all.take(0) =~= Seq::empty());
    while i < values.len()
        invariant
            i <= values.len(),
            array.wf(),
            all == values@.map_values(|s: String| Json::Text(s@)),
            array@ == all.take(i as int),
        decreases values.len() - i,
    {
        array.text(values[i].as_str());
        i = i + 1;
        assert(all.take(i as int) =~= all.take(i - 1).push(all[i - 1]));
    }
    assert(all.take(i as int) =~= all);
    array
}

/// A string can be told from what follows it: two strings that are written alike, each with
/// something after it, are the same, and so is what follows.
pub proof fn law_strings_are_unambiguous(
    a: Seq<char>,
    after_a: Seq<char>,
    b: Seq<char>,
    after_b: Seq<char>,
)
    requires
        string_text(a) + after_a == string_text(b) + after_b,
    ensures
        a == b,
        after_a == after_b,
{
    let whole = string_text(a) + after_a;
    assert(whole.skip(1) =~= escaped(a) + (seq!['"'] + after_a));
    assert(whole.skip(1) =~= escaped(b) + (seq!['"'] + after_b));
    lemma_escaped_unambiguous(a, after_a, b, after_b);
}

proof fn lemma_escaped_unambiguous(
    a: Seq<char>,
    after_a: Seq<char>,
    b: Seq<char>,
    after_b: Seq<char>,
)
    requires
        escaped(a) + (seq!['"'] + after_a) == escaped(b) + (seq!['"'] + after_b),
    ensures
        a == b,
        after_a == after_b,
    decreases a.len(),
{
    let whole = escaped(a) + (seq!['"'] + after_a);
    if a.len() > 0 {
        lemma_escaped_front(a);
        lemma_first_char(a[0], escaped(a.skip(1)) + (seq!['"'] + after_a));
        assert(whole =~= escaped_char(a[0]) + (escaped(a.skip(1)) + (seq!['"'] + after_a)));
    }
    if b.len() > 0 {
        lemma_escaped_front(b);
        lemma_first_char(b[0], escaped(b.skip(1)) + (seq!['"'] + after_b));
        assert(whole =~= escaped_char(b[0]) + (escaped(b.skip(1)) + (seq!['"'] + after_b)));
    }
    if a.len() == 0 && b.len() == 0 {
        assert(a =~= b);
        assert(after_a =~= whole.skip(1));
        assert(after_b =~= whole.skip(1));
    } else if a.len() == 0 || b.len() == 0 {
        assert(whole[0] == '"');
    } else {
        lemma_escaped_char_unambiguous(
            a[0],
            escaped(a.skip(1)) + (seq!['"'] + after_a),
            b[0],
            escaped(b.skip(1)) + (seq!['"'] + after_b),
        );
        lemma_escaped_unambiguous(a.skip(1), after_a, b.skip(1), after_b);
        assert(a =~= seq![a[0]] + a.skip(1));
        assert(b =~= seq![b[0]] + b.skip(1));
    }
}

/// The notation of a string starts with that of its first character.
proof fn lemma_escaped_front(s: Seq<char>)
    requires
        s.len() > 0,
    ensures
        escaped(s) == escaped_char(s[0]) + escaped(s.skip(1)),
    decreases s.len(),
{
    if s.len() == 1 {
        let nothing = Seq::<char>::empty();
        assert(s.drop_last() =~= nothing);
        assert(s.skip(1) =~= nothing);
        assert(escaped(nothing) == nothing);
        assert(s.last() == s[0]);
        assert(nothing + escaped_char(s[0]) =~= escaped_char(s[0]) + nothing);
    } else {
        lemma_escaped_front(s.drop_last());
        assert(s.drop_last().skip(1) =~= s.skip(1).drop_last());
        assert(escaped(s) =~= escaped_char(s[0]) + escaped(s.skip(1)));
    }
}

/// Within a string no character is written with a quotation mark first.
proof fn lemma_first_char(c: char, rest: Seq<char>)
    ensures
        escaped_char(c).len() > 0,
        (escaped_char(c) + rest)[0] != '"',
{
}

/// A character can be told from what follows it.
proof fn lemma_escaped_char_unambiguous(
    c: char,
    after_c: Seq<char>,
    d: char,
    after_d: Seq<char>,
)
    requires
        escaped_char(c) + after_c == escaped_char(d) + after_d,
    ensures
        c == d,
        after_c == after_d,
{
    let whole = escaped_char(c) + after_c;
    reveal_with_fuel(text::hex_digits, 5);
    assert(whole[0] == escaped_char(c)[0]);
    assert(whole[0] == escaped_char(d)[0]);
    if escaped_char(c).len() > 1 && escaped_char(d).len() > 1 {
        assert(whole[1] == escaped_char(c)[1]);
        assert(whole[1] == escaped_char(d)[1]);
        if escaped_char(c).len() > 2 && escaped_char(d).len() > 2 {
            assert(whole[4] == text::hex_char(c as nat / 16 % 16));
            assert(whole[5] == text::hex_char(c as nat % 16));
            assert(whole[4] == text::hex_char(d as nat / 16 % 16));
            assert(whole[5] == text::hex_char(d as nat % 16));
            lemma_hex_char_injective(c as nat / 16 % 16, d as nat / 16 % 16);
            lemma_hex_char_injective(c as nat % 16, d as nat % 16);
        }
    }
    assert(c == d);
    assert(after_c =~= whole.skip(escaped_char(c).len() as int));
    assert(after_d =~= whole.skip(escaped_char(d).len() as int));
}

/// Different digits have different characters.
proof fn lemma_hex_char_injective(a: nat, b: nat)
    requires
        a < 16,
        b < 16,
        text::hex_char(a) == text::hex_char(b),
    ensures
        a == b,
{
}

/// The character that a letter after a backslash stands for.
pub open spec fn simple_escape(c: char) -> Option<char> {
    if c == '"' || c == '\\' || c == '/' {
        Some(c)
    } else if c == 'n' {
        Some('\n')
    } else if c == 'r' {
        Some('\r')
    } else if c == 't' {
        Some('\t')
    } else {
        None
    }
}

/// Reads what follows the opening quotation mark of a string: the string, and what comes after its
/// closing quotation mark.
pub open spec fn read_string(t: Seq<char>) -> Option<(Seq<char>, Seq<char>)>
    decreases t.len(),
{
    if t.len() == 0 || (t[0] as u32) < 0x20 {
        None
    } else if t[0] == '"' {
        Some((Seq::empty(), t.skip(1)))
    } else if t[0] != '\\' {
        with_first(t[0], read_string(t.skip(1)))
    } else if t.len() < 2 {
        None
    } else {
        match simple_escape(t[1]) {
            Some(c) => with_first(c, read_string(t.skip(2))),
            None => if t[1] == 'u' && t.len() >= 6 {
                with_first(
                    text::hex_numeral(t.subrange(2, 6)) as char,
                    read_string(t.skip(6)),
                )
            } else {
                None
            },
        }
    }
}

/// What was read, with one more character in front.
pub open spec fn with_first(c: char, read: Option<(Seq<char>, Seq<char>)>) -> Option<
    (Seq<char>, Seq<char>),
> {
    match read {
        Some((s, rest)) => Some((seq![c] + s, rest)),
        None => None,
    }
}

/// A string reads back as what was written: it starts with a quotation mark, and what follows, read
/// as JSON, is the string and whatever stands behind it.
pub proof fn law_strings_read_back(s: Seq<char>, rest: Seq<char>)
    ensures
        string_text(s).len() > 0,
        string_text(s)[0] == '"',
        read_string((string_text(s) + rest).skip(1)) == Some((s, rest)),
{
    assert((string_text(s) + rest).skip(1) =~= escaped(s) + (seq!['"'] + rest));
    lemma_reads_back(s, rest);
}

proof fn lemma_reads_back(s: Seq<char>, rest: Seq<char>)
    ensures
        read_string(escaped(s) + (seq!['"'] + rest)) == Some((s, rest)),
    decreases s.len(),
{
    let whole = escaped(s) + (seq!['"'] + rest);
    if s.len() == 0 {
        assert(whole =~= seq!['"'] + rest);
        assert(whole.skip(1) =~= rest);
        assert(s =~= Seq::empty());
    } else {
        let c = s[0];
        let behind = escaped(s.skip(1)) + (seq!['"'] + rest);
        lemma_escaped_front(s);
        lemma_reads_back(s.skip(1), rest);
        assert(whole =~= escaped_char(c) + behind);
        lemma_reads_char(c, behind);
        assert(s =~= seq![c] + s.skip(1));
    }
}

proof fn lemma_reads_char(c: char, behind: Seq<char>)
    ensures
        read_string(escaped_char(c) + behind) == with_first(c, read_string(behind)),
{
    let whole = escaped_char(c) + behind;
    let n: int = escaped_char(c).len() as int;
    reveal_with_fuel(text::hex_digits, 5);
    assert(whole.skip(n) =~= behind);
    assert(whole[0] == escaped_char(c)[0]);
    if n > 1 {
        assert(whole[1] == escaped_char(c)[1]);
        if n > 2 {
            let code: nat = c as nat;
            assert(n == 6);
            assert(whole.subrange(2, 6) =~= text::hex_digits(code, 4));
            lemma_four_digits(code);
        }
    }
}

proof fn lemma_four_digits(n: nat)
    requires
        n < 0x20,
    ensures
        text::hex_numeral(text::hex_digits(n, 4)) == n,
{
    reveal_with_fuel(text::hex_digits, 5);
    reveal_with_fuel(text::hex_numeral, 5);
    let d4 = text::hex_digits(n, 4);
    let d3 = text::hex_digits(n / 16, 3);
    let d2 = text::hex_digits(n / 16 / 16, 2);
    let d1 = text::hex_digits(n / 16 / 16 / 16, 1);
    assert(d4.drop_last() =~= d3);
    assert(d3.drop_last() =~= d2);
    assert(d2.drop_last() =~= d1);
    assert(d1.drop_last() =~= Seq::empty());
    assert(n / 16 / 16 == 0);
    assert(text::hex_value(text::hex_char(n % 16)) == n % 16);
    assert(text::hex_value(text::hex_char(n / 16 % 16)) == n / 16 % 16);
    assert(text::hex_value(text::hex_char(0)) == 0);
    assert(text::hex_numeral(d1) == 0);
    assert(text::hex_numeral(d2) == 0);
    assert(text::hex_numeral(d3) == n / 16 % 16);
}

/// How values are written: the words `null`, `true` and `false`, numbers in decimal notation, and
/// what is already written as it is.
pub proof fn law_simple_values_are_written(b: bool, n: int, s: Seq<char>)
    ensures
        render(Json::Null) == "null"@,
        render(Json::Bool(b)) == if b { "true"@ } else { "false"@ },
        render(Json::Number(n)) == text::decimal(n),
        render(Json::Text(s)) == string_text(s),
        render(Json::Written(s)) == s,
{
}

/// An array is written in square brackets: its items in order, with a comma between two neighbours.
pub proof fn law_arrays_are_written_in_order(items: Seq<Json>)
    ensures
        render(Json::Array(items)) == seq!['['] + text::joined(
            Seq::new(items.len(), |i: int| render(items[i])),
            seq![','],
        ) + seq![']'],
{
    lemma_items(items);
}

proof fn lemma_items(items: Seq<Json>)
    ensures
        items_text(items) == text::joined(
            Seq::new(items.len(), |i: int| render(items[i])),
            seq![','],
        ),
    decreases items.len(),
{
    let parts = Seq::new(items.len(), |i: int| render(items[i]));
    if items.len() > 0 {
        let rest = items.subrange(0, items.len() - 1);
        let before = Seq::new(rest.len(), |i: int| render(rest[i]));
        lemma_items(rest);
        assert(parts.drop_last() =~= before);
        if items.len() == 1 {
            assert(rest =~= Seq::empty());
            assert(items_text(items) =~= parts[0]);
        } else {
            assert(items_text(rest).push(',') + render(items[items.len() - 1]) =~= items_text(rest)
                + seq![','] + parts.last());
        }
    }
}

/// An object is written in braces: its members in order, each with its name in quotation marks, a
/// colon and its value, with a comma between two neighbours.
pub proof fn law_objects_are_written_in_order(members: Seq<(Seq<char>, Json)>)
    ensures
        render(Json::Object(members)) == seq!['{'] + text::joined(
            Seq::new(
                members.len(),
                |i: int| seq!['"'] + members[i].0 + seq!['"', ':'] + render(members[i].1),
            ),
            seq![','],
        ) + seq!['}'],
{
    lemma_members(members);
}

proof fn lemma_members(members: Seq<(Seq<char>, Json)>)
    ensures
        members_text(members) == text::joined(
            Seq::new(
                members.len(),
                |i: int| seq!['"'] + members[i].0 + seq!['"', ':'] + render(members[i].1),
            ),
            seq![','],
        ),
    decreases members.len(),
{
    let parts = Seq::new(
        members.len(),
        |i: int| seq!['"'] + members[i].0 + seq!['"', ':'] + render(members[i].1),
    );
    if members.len() > 0 {
        let rest = members.subrange(0, members.len() - 1);
        let before = Seq::new(
            rest.len(),
            |i: int| seq!['"'] + rest[i].0 + seq!['"', ':'] + render(rest[i].1),
        );
        let last = members[members.len() - 1];
        lemma_members(rest);
        assert(parts.drop_last() =~= before);
        assert(parts.last() == member_start(last.0) + render(last.1));
        if members.len() == 1 {
            assert(rest =~= Seq::empty());
            assert(members_text(members) =~= parts[0]);
        } else {
            assert(members_text(rest).push(',') + member_start(last.0) + render(last.1)
                =~= members_text(rest) + seq![','] + parts.last());
        }
    }
}

/// A string is written as its characters in order, in quotation marks. Only quotation marks,
/// backslashes and control characters are escaped: the short form is used for line feeds, carriage
/// returns and tabs, and four lower-case hexadecimal digits for the other control characters. A
/// text that may be missing is `null` where it is.
pub proof fn law_only_what_must_be_is_escaped(s: Seq<char>, c: char, value: Option<String>)
    ensures
        string_text(s) == seq!['"'] + Seq::new(
            s.len(),
            |i: int| escaped_char(s[i]),
        ).flatten_alt() + seq!['"'],
        c == '"' || c == '\\' ==> escaped_char(c) == seq!['\\', c],
        c == '\n' ==> escaped_char(c) == seq!['\\', 'n'],
        c == '\r' ==> escaped_char(c) == seq!['\\', 'r'],
        c == '\t' ==> escaped_char(c) == seq!['\\', 't'],
        c as int >= 0x20 && c != '"' && c != '\\' ==> escaped_char(c) == seq![c],
        (c as int) < 0x20 && c != '\n' && c != '\r' && c != '\t' ==> {
            &&& escaped_char(c).len() == 6
            &&& escaped_char(c).take(4) == seq!['\\', 'u', '0', '0']
            &&& text::hex_value(escaped_char(c)[4]) == c as int / 16
            &&& text::hex_value(escaped_char(c)[5]) == c as int % 16
        },
        value matches Some(text) ==> render(optional_text(value)) == string_text(text@),
        value is None ==> render(optional_text(value)) == "null"@,
{
    lemma_escaped_in_order(s);
    reveal_with_fuel(text::hex_digits, 5);
    if (c as int) < 0x20 && c != '\n' && c != '\r' && c != '\t' {
        let code: nat = c as nat;
        assert(code / 16 / 16 == 0);
        assert(escaped_char(c).take(4) =~= seq!['\\', 'u', '0', '0']);
    }
}

proof fn lemma_escaped_in_order(s: Seq<char>)
    ensures
        escaped(s) == Seq::new(s.len(), |i: int| escaped_char(s[i])).flatten_alt(),
    decreases s.len(),
{
    let all = Seq::new(s.len(), |i: int| escaped_char(s[i]));
    if s.len() > 0 {
        let rest = s.drop_last();
        lemma_escaped_in_order(rest);
        assert(all.drop_last() =~= Seq::new(rest.len(), |i: int| escaped_char(rest[i])));
    }
}

} // verus!
