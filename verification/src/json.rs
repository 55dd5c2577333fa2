//! Reading members of JSON objects and writing JSON, by the `serde_json` crate.
use crate::text;
use crate::text::push_decimal;
use vstd::prelude::*;
use vstd::string::*;

verus! {

/// The text of a member of a JSON object, as `serde_json::from_slice`, `Value::get` and
/// `Value::as_str` find it: none where the bytes are no JSON, where there is no such member, or
/// where it is no string.
pub uninterp spec fn text_member_of(data: Seq<u8>, key: Seq<char>) -> Option<Seq<char>>;

/// The number of a member of a JSON object, as `serde_json::from_slice`, `Value::get` and
/// `Value::as_u64` find it: none where the bytes are no JSON, where there is no such member, or
/// where it is no integer of 64 bits without a sign.
pub uninterp spec fn number_member_of(data: Seq<u8>, key: Seq<char>) -> Option<u64>;

/// The truth value of a member of a JSON object, as `serde_json::from_slice`, `Value::get` and
/// `Value::as_bool` find it: none where the bytes are no JSON, where there is no such member, or
/// where it is no truth value.
pub uninterp spec fn flag_member_of(data: Seq<u8>, key: Seq<char>) -> Option<bool>;

/// The items of an array that is a member of a JSON object, each as `Value::as_str` sees it; none
/// where the bytes are no JSON, where there is no such member, or where it is no array.
pub uninterp spec fn list_member_of(data: Seq<u8>, key: Seq<char>) -> Option<Seq<Option<Seq<char>>>>;

/// The number of seconds that is a member of a JSON object, as whole seconds and nanoseconds. None
/// where `Value::as_f64` finds no number there; no span where
/// `std::time::Duration::try_from_secs_f64` refuses it.
pub uninterp spec fn seconds_member_of(data: Seq<u8>, key: Seq<char>) -> Option<Option<(u64, u32)>>;

/// Whether a member of a JSON object is a number with a minus sign, as `Value::as_f64` finds it.
pub uninterp spec fn is_negative_member(data: Seq<u8>, key: Seq<char>) -> bool;

/// The JSON of a member of a JSON object, as `serde_json::from_slice` and `Value::get` find it and
/// `serde_json::to_vec` writes it; none where the bytes are no JSON or there is no such member.
pub uninterp spec fn member_of(data: Seq<u8>, key: Seq<char>) -> Option<Seq<u8>>;

/// Whether bytes are JSON, as `serde_json::from_slice` sees it.
pub uninterp spec fn is_valid_json(data: Seq<u8>) -> bool;

/// The hexadecimal digit of a number below 16.
pub open spec fn hex_char(d: int) -> char {
    if d < 10 {
        ('0' as int + d) as char
    } else {
        ('a' as int + d - 10) as char
    }
}

/// A character as it stands in a JSON string: quotes, backslashes and control characters are
/// escaped.
pub open spec fn escaped_char(c: char) -> Seq<char> {
    let n = c as int;
    if c == '"' || c == '\\' {
        seq!['\\', c]
    } else if n == 0x08 {
        seq!['\\', 'b']
    } else if n == 0x09 {
        seq!['\\', 't']
    } else if n == 0x0a {
        seq!['\\', 'n']
    } else if n == 0x0c {
        seq!['\\', 'f']
    } else if n == 0x0d {
        seq!['\\', 'r']
    } else if n < 0x20 {
        seq!['\\', 'u', '0', '0', hex_char(n / 16), hex_char(n % 16)]
    } else {
        seq![c]
    }
}

/// Characters as they stand in a JSON string.
pub open spec fn escaped(s: Seq<char>) -> Seq<char>
    decreases s.len(),
{
    if s.len() == 0 {
        Seq::empty()
    } else {
        escaped(s.drop_last()) + escaped_char(s.last())
    }
}

/// A text as a JSON string.
pub open spec fn string_text(s: Seq<char>) -> Seq<char> {
    seq!['"'] + escaped(s) + seq!['"']
}

/// A span in seconds as a JSON number, as `serde_json` writes what
/// `std::time::Duration::as_secs_f64` returns.
pub uninterp spec fn seconds_text_of(secs: u64, nanos: u32) -> Seq<char>;

/// Parses the bytes with `serde_json::from_slice` and takes the text of a member. The contract
/// only names the result: it depends on nothing but the bytes and the key.
#[verifier::external_body]
pub(crate) fn text_member(data: &[u8], key: &str) -> (member: Option<String>)
    ensures
        text::optional_view(member) == text_member_of(data@, key@),
{
    let value: serde_json::Value = serde_json::from_slice(data).ok()?;
    value.get(key)?.as_str().map(|s| s.to_string())
}

/// Parses the bytes with `serde_json::from_slice` and takes the number of a member. The contract
/// only names the result: it depends on nothing but the bytes and the key.
#[verifier::external_body]
pub(crate) fn number_member(data: &[u8], key: &str) -> (member: Option<u64>)
    ensures
        member == number_member_of(data@, key@),
{
    let value: serde_json::Value = serde_json::from_slice(data).ok()?;
    value.get(key)?.as_u64()
}

/// Parses the bytes with `serde_json::from_slice` and takes the truth value of a member. The
/// contract only names the result: it depends on nothing but the bytes and the key.
#[verifier::external_body]
pub(crate) fn flag_member(data: &[u8], key: &str) -> (member: Option<bool>)
    ensures
        member == flag_member_of(data@, key@),
{
    let value: serde_json::Value = serde_json::from_slice(data).ok()?;
    value.get(key)?.as_bool()
}

/// The views of a list of optional texts.
pub open spec fn optional_views(v: Seq<Option<String>>) -> Seq<Option<Seq<char>>> {
    v.map_values(|s: Option<String>| text::optional_view(s))
}

/// Parses the bytes with `serde_json::from_slice` and takes the items of a member that is an
/// array, one by one. The contract only names the result: it depends on nothing but the bytes and
/// the key.
#[verifier::external_body]
pub(crate) fn list_member(data: &[u8], key: &str) -> (member: Option<Vec<Option<String>>>)
    ensures
        match member {
            Some(items) => list_member_of(data@, key@) == Some(optional_views(items@)),
            None => list_member_of(data@, key@) is None,
        },
{
    let value: serde_json::Value = serde_json::from_slice(data).ok()?;
    let items = value.get(key)?.as_array()?;
    Some(items.iter().map(|v| v.as_str().map(|s| s.to_string())).collect())
}

/// Parses the bytes with `serde_json::from_slice` and turns the number of a member into a span
/// with `std::time::Duration::try_from_secs_f64`. The contract names the result, which depends on
/// nothing but the bytes and the key, and says that a span has less than a second of nanoseconds.
#[verifier::external_body]
pub(crate) fn seconds_member(data: &[u8], key: &str) -> (member: Option<Option<(u64, u32)>>)
    ensures
        member == seconds_member_of(data@, key@),
        member matches Some(Some((_, nanos))) ==> nanos < 1_000_000_000,
{
    let value: serde_json::Value = serde_json::from_slice(data).ok()?;
    let span = std::time::Duration::try_from_secs_f64(value.get(key)?.as_f64()?).ok();
    Some(span.map(|d| (d.as_secs(), d.subsec_nanos())))
}

/// Parses the bytes with `serde_json::from_slice` and asks the number of a member for its sign.
/// The contract only names the result: it depends on nothing but the bytes and the key.
#[verifier::external_body]
pub(crate) fn negative_member(data: &[u8], key: &str) -> (negative: bool)
    ensures
        negative == is_negative_member(data@, key@),
{
    let value: Option<serde_json::Value> = serde_json::from_slice(data).ok();
    let number = value.and_then(|v| v.get(key).and_then(|m| m.as_f64()));
    number.map_or(false, |n| n.is_sign_negative())
}

/// Parses the bytes with `serde_json::from_slice` and writes a member with `serde_json::to_vec`.
/// The contract only names the result: it depends on nothing but the bytes and the key.
#[verifier::external_body]
pub(crate) fn member(data: &[u8], key: &str) -> (found: Option<Vec<u8>>)
    ensures
        match found {
            Some(json) => member_of(data@, key@) == Some(json@),
            None => member_of(data@, key@) is None,
        },
{
    let value: serde_json::Value = serde_json::from_slice(data).ok()?;
    serde_json::to_vec(value.get(key)?).ok()
}

/// Parses the bytes with `serde_json::from_slice`, to see whether they are JSON at all. The contract
/// only names the result: it depends on nothing but the bytes.
#[verifier::external_body]
pub(crate) fn is_json(data: &[u8]) -> (valid: bool)
    ensures
        valid == is_valid_json(data@),
{
    serde_json::from_slice::<serde_json::Value>(data).is_ok()
}

/// Whether a text has no control characters, and so no line ends.
pub open spec fn is_one_line(s: Seq<char>) -> bool {
    forall|i: int| 0 <= i < s.len() ==> (#[trigger] s[i]) as u32 >= 0x20
}

/// Writes a text with `serde_json` as a JSON string, by `Value::to_string`. The contract says how:
/// between quotes, with quotes, backslashes and control characters escaped and all else as it is.
#[verifier::external_body]
pub(crate) fn string(s: &str) -> (json: String)
    ensures
        json@ == string_text(s@),
{
    serde_json::Value::from(s).to_string()
}

proof fn lemma_escaped_char_is_one_line(c: char)
    ensures
        is_one_line(escaped_char(c)),
{
    let n = c as int;
    let e = escaped_char(c);
    if n < 0x20 {
        assert(0 <= n / 16 < 2);
        assert(0 <= n % 16 < 16);
        assert(hex_char(n / 16) as u32 >= 0x30);
        assert(hex_char(n % 16) as u32 >= 0x30);
        assert(e.len() == 2 || e.len() == 6);
        assert(e[0] as u32 >= 0x20 && e[1] as u32 >= 0x20);
        if e.len() == 6 {
            assert(e[2] as u32 >= 0x20 && e[3] as u32 >= 0x20);
            assert(e[4] as u32 >= 0x20 && e[5] as u32 >= 0x20);
        }
    }
}

proof fn lemma_escaped_is_one_line(s: Seq<char>)
    ensures
        is_one_line(escaped(s)),
    decreases s.len(),
{
    if s.len() > 0 {
        lemma_escaped_is_one_line(s.drop_last());
        let last = escaped_char(s.last());
        lemma_escaped_char_is_one_line(s.last());
        let front = escaped(s.drop_last());
        let all = front + last;
        assert forall|i: int| 0 <= i < all.len() implies (#[trigger] all[i]) as u32 >= 0x20 by {
            if i < front.len() {
                assert(all[i] == front[i]);
            } else {
                assert(all[i] == last[i - front.len()]);
            }
        }
    }
}

/// A JSON string stays on one line, whatever the text.
pub proof fn law_strings_stay_on_one_line(s: Seq<char>)
    ensures
        is_one_line(string_text(s)),
{
    lemma_escaped_is_one_line(s);
    let e = escaped(s);
    let all = string_text(s);
    assert forall|i: int| 0 <= i < all.len() implies (#[trigger] all[i]) as u32 >= 0x20 by {
        if 0 < i <= e.len() {
            assert(all[i] == e[i - 1]);
        }
    }
}

/// Writes a span in seconds with `serde_json` as a JSON number, by way of
/// `std::time::Duration::as_secs_f64`. The contract names the result, which depends on nothing but
/// the span, and says that a number has no control characters.
#[verifier::external_body]
pub(crate) fn seconds(secs: u64, nanos: u32) -> (json: String)
    requires
        nanos < 1_000_000_000,
    ensures
        json@ == seconds_text_of(secs, nanos),
        is_one_line(json@),
{
    serde_json::Value::from(std::time::Duration::new(secs, nanos).as_secs_f64()).to_string()
}

/// A member of an object: its key and its JSON.
pub type MemberView = (Seq<char>, Seq<char>);

/// A member of an object that is to be written. The key needs no escapes.
pub struct Member {
    pub key: &'static str,
    pub json: String,
}

impl View for Member {
    type V = MemberView;

    open spec fn view(&self) -> MemberView {
        (self.key@, self.json@)
    }
}

/// The views of a list of members.
pub open spec fn member_views(v: Seq<Member>) -> Seq<MemberView> {
    v.map_values(|m: Member| m@)
}

/// A member as it is written.
pub open spec fn member_text(m: MemberView) -> Seq<char> {
    "\""@ + m.0 + "\":"@ + m.1
}

/// Texts with commas between them.
pub open spec fn joined_text(parts: Seq<Seq<char>>) -> Seq<char>
    decreases parts.len(),
{
    if parts.len() == 0 {
        Seq::empty()
    } else if parts.len() == 1 {
        parts[0]
    } else {
        joined_text(parts.drop_last()) + ","@ + parts.last()
    }
}

/// An object as it is written.
pub open spec fn object_text(members: Seq<MemberView>) -> Seq<char> {
    "{"@ + joined_text(members.map_values(|m: MemberView| member_text(m))) + "}"@
}

/// An array as it is written.
pub open spec fn list_text(items: Seq<Seq<char>>) -> Seq<char> {
    "["@ + joined_text(items) + "]"@
}

/// A truth value as it is written.
pub open spec fn flag_text(b: bool) -> Seq<char> {
    if b {
        "true"@
    } else {
        "false"@
    }
}

/// A text as a JSON string, and `null` for none.
pub open spec fn optional_text(s: Option<Seq<char>>) -> Seq<char> {
    match s {
        Some(t) => string_text(t),
        None => "null"@,
    }
}

/// The views of a list of texts.
pub open spec fn views(v: Seq<String>) -> Seq<Seq<char>> {
    v.map_values(|s: String| s@)
}

/// A number as it is written.
pub fn number(n: u64) -> (json: String)
    ensures
        json@ == text::decimal(n as nat),
{
    let mut s = String::new();
    push_decimal(&mut s, n);
    assert(s@ =~= text::decimal(n as nat));
    s
}

/// A truth value as it is written.
pub fn flag(b: bool) -> (json: String)
    ensures
        json@ == flag_text(b),
{
    if b {
        "true".to_string()
    } else {
        "false".to_string()
    }
}

/// A text as a JSON string, and `null` for none.
pub fn optional_string(s: &Option<String>) -> (json: String)
    ensures
        json@ == optional_text(text::optional_view(*s)),
{
    match s {
        Some(t) => string(t.as_str()),
        None => "null".to_string(),
    }
}

/// A member of an object.
pub fn entry(key: &'static str, json: String) -> (m: Member)
    ensures
        m@ == (key@, json@),
{
    Member { key, json }
}

/// An array as it is written.
pub fn list(items: &[String]) -> (json: String)
    ensures
        json@ == list_text(views(items@)),
{
    let mut s = "[".to_string();
    let ghost parts = views(items@);
    let mut i: usize = 0;
    assert(joined_text(parts.take(0)) =~= Seq::empty());
    while i < items.len()
        invariant
            i <= items.len(),
            parts == views(items@),
            s@ == "["@ + joined_text(parts.take(i as int)),
        decreases items.len() - i,
    {
        if i > 0 {
            s.append(",");
        }
        s.append(items[i].as_str());
        proof {
            assert(parts.take(i + 1).drop_last() =~= parts.take(i as int));
            assert(parts.take(i + 1).last() == items@[i as int]@);
            if i == 0 {
                assert(s@ =~= "["@ + parts[0]);
            } else {
                assert(s@ =~= "["@ + (joined_text(parts.take(i as int)) + ","@ + parts[i as int]));
            }
        }
        i += 1;
    }
    assert(parts.take(i as int) =~= parts);
    s.append("]");
    s
}

/// An object as it is written.
pub fn object(members: &[Member]) -> (json: String)
    ensures
        json@ == object_text(member_views(members@)),
{
    let mut s = "{".to_string();
    let ghost parts = member_views(members@).map_values(|m: MemberView| member_text(m));
    let mut i: usize = 0;
    assert(joined_text(parts.take(0)) =~= Seq::empty());
    while i < members.len()
        invariant
            i <= members.len(),
            parts == member_views(members@).map_values(|m: MemberView| member_text(m)),
            s@ == "{"@ + joined_text(parts.take(i as int)),
        decreases members.len() - i,
    {
        if i > 0 {
            s.append(",");
        }
        let ghost before = s@;
        s.append("\"");
        s.append(members[i].key);
        s.append("\":");
        s.append(members[i].json.as_str());
        proof {
            assert(parts[i as int] == member_text(members@[i as int]@));
            assert(s@ =~= before + parts[i as int]);
            assert(parts.take(i + 1).drop_last() =~= parts.take(i as int));
            assert(parts.take(i + 1).last() == parts[i as int]);
            if i == 0 {
                assert(s@ =~= "{"@ + parts[0]);
            } else {
                assert(s@ =~= "{"@ + (joined_text(parts.take(i as int)) + ","@ + parts[i as int]));
            }
        }
        i += 1;
    }
    assert(parts.take(i as int) =~= parts);
    s.append("}");
    s
}

proof fn lemma_joined_is_one_line(parts: Seq<Seq<char>>)
    requires
        forall|i: int| 0 <= i < parts.len() ==> is_one_line(#[trigger] parts[i]),
    ensures
        is_one_line(joined_text(parts)),
    decreases parts.len(),
{
    reveal_strlit(",");
    if parts.len() > 1 {
        let front = parts.drop_last();
        assert forall|i: int| 0 <= i < front.len() implies is_one_line(#[trigger] front[i]) by {
            assert(front[i] == parts[i]);
        }
        lemma_joined_is_one_line(front);
    }
}

/// An array of JSON on one line is on one line.
pub proof fn law_lists_stay_on_one_line(items: Seq<Seq<char>>)
    requires
        forall|i: int| 0 <= i < items.len() ==> is_one_line(#[trigger] items[i]),
    ensures
        is_one_line(list_text(items)),
{
    reveal_strlit("[");
    reveal_strlit("]");
    lemma_joined_is_one_line(items);
}

/// An object of JSON on one line is on one line.
pub proof fn law_objects_stay_on_one_line(members: Seq<MemberView>)
    requires
        forall|i: int|
            0 <= i < members.len() ==> is_one_line((#[trigger] members[i]).0) && is_one_line(
                members[i].1,
            ),
    ensures
        is_one_line(object_text(members)),
{
    reveal_strlit("{");
    reveal_strlit("}");
    reveal_strlit("\"");
    reveal_strlit("\":");
    let parts = members.map_values(|m: MemberView| member_text(m));
    assert forall|i: int| 0 <= i < parts.len() implies is_one_line(#[trigger] parts[i]) by {
        assert(parts[i] == member_text(members[i]));
    }
    lemma_joined_is_one_line(parts);
}

proof fn lemma_escaped_pieces(a: Seq<char>, b: Seq<char>)
    ensures
        escaped(a + b) == escaped(a) + escaped(b),
    decreases b.len(),
{
    if b.len() == 0 {
        assert(a + b =~= a);
        assert(escaped(a) + escaped(b) =~= escaped(a));
    } else {
        assert((a + b).drop_last() =~= a + b.drop_last());
        lemma_escaped_pieces(a, b.drop_last());
        assert(escaped(a + b) =~= escaped(a) + escaped(b));
    }
}

/// Strings are written character by character between quotes: two texts one after the other are
/// written one after the other, letters are kept, and a quote, a backslash and a newline stand
/// behind a backslash.
pub proof fn law_strings_are_written_by_characters(a: Seq<char>, b: Seq<char>, c: char)
    ensures
        string_text(a + b) == string_text(a).drop_last() + string_text(b).skip(1),
        c as int >= 0x20 && c != '"' && c != '\\' ==> string_text(seq![c]) == seq!['"', c, '"'],
        c == '"' || c == '\\' ==> string_text(seq![c]) == seq!['"', '\\', c, '"'],
        c == '\n' ==> string_text(seq![c]) == seq!['"', '\\', 'n', '"'],
{
    lemma_escaped_pieces(a, b);
    assert(string_text(a + b) =~= string_text(a).drop_last() + string_text(b).skip(1));
    let one = seq![c];
    assert(one.drop_last() =~= Seq::empty());
    assert(escaped(one.drop_last()) =~= Seq::empty());
    assert(escaped(one) =~= escaped_char(c));
    assert(string_text(one) =~= seq!['"'] + escaped_char(c) + seq!['"']);
    if c as int >= 0x20 && c != '"' && c != '\\' {
        assert(string_text(one) =~= seq!['"', c, '"']);
    }
    if c == '"' || c == '\\' {
        assert(string_text(one) =~= seq!['"', '\\', c, '"']);
    }
    if c == '\n' {
        assert(string_text(one) =~= seq!['"', '\\', 'n', '"']);
    }
}

/// Lists and objects are written in order, with commas between their parts.
pub proof fn law_parts_are_written_in_order(items: Seq<Seq<char>>, last: Seq<char>)
    ensures
        joined_text(seq![last]) == last,
        items.len() > 0 ==> joined_text(items.push(last)) == joined_text(items) + seq![','] + last,
        list_text(items) == seq!['['] + joined_text(items) + seq![']'],
{
    reveal_strlit(",");
    reveal_strlit("[");
    reveal_strlit("]");
    assert(","@ =~= seq![',']);
    assert("["@ =~= seq!['[']);
    assert("]"@ =~= seq![']']);
    assert(items.push(last).drop_last() =~= items);
}

/// An object is written with its members in order, each with its name in quotes before a colon and
/// its value behind it.
pub proof fn law_members_are_written_in_order(members: Seq<MemberView>, last: MemberView)
    ensures
        member_text(last) == seq!['"'] + last.0 + seq!['"', ':'] + last.1,
        object_text(seq![last]) == seq!['{'] + member_text(last) + seq!['}'],
        members.len() > 0 ==> object_text(members.push(last)) == object_text(members).drop_last()
            + seq![','] + member_text(last) + seq!['}'],
{
    reveal_strlit("\"");
    reveal_strlit("\":");
    reveal_strlit("{");
    reveal_strlit("}");
    reveal_strlit(",");
    assert("\""@ =~= seq!['"']);
    assert("\":"@ =~= seq!['"', ':']);
    let f = |m: MemberView| member_text(m);
    let one = seq![last].map_values(f);
    assert(one =~= seq![member_text(last)]);
    assert(object_text(seq![last]) =~= seq!['{'] + member_text(last) + seq!['}']);
    let parts = members.map_values(f);
    let all = members.push(last).map_values(f);
    assert(all =~= parts.push(member_text(last)));
    assert(all.drop_last() =~= parts);
    if members.len() > 0 {
        assert(joined_text(all) == joined_text(parts) + ","@ + member_text(last));
        assert(object_text(members.push(last)) =~= object_text(members).drop_last() + seq![',']
            + member_text(last) + seq!['}']);
    }
}

} // verus!
