//! The members of a JSON object, as far as this library reads them: texts,
//! flags and numbers by value, anything else by its mere presence.

use vstd::prelude::*;
use serde_json::Value;
use crate::text::same_text;

verus! {

/// The value of one member.
#[derive(Debug)]
pub enum Scalar {
    /// A JSON string.
    Text(String),
    /// `true` or `false`.
    Flag(bool),
    /// A JSON number, as the bit pattern of the nearest IEEE 754 double.
    Number(u64),
    /// `null`, an array or an object.
    Other,
}

/// One member of an object.
#[derive(Debug)]
pub struct Member {
    pub name: String,
    pub value: Scalar,
}

/// The model of [`Scalar`].
pub enum ScalarView {
    Text(Seq<char>),
    Flag(bool),
    Number(u64),
    Other,
}

/// The model of [`Member`].
pub struct MemberView {
    pub name: Seq<char>,
    pub value: ScalarView,
}

impl View for Scalar {
    type V = ScalarView;

    open spec fn view(&self) -> ScalarView {
        match self {
            Scalar::Text(s) => ScalarView::Text(s@),
            Scalar::Flag(b) => ScalarView::Flag(*b),
            Scalar::Number(bits) => ScalarView::Number(*bits),
            Scalar::Other => ScalarView::Other,
        }
    }
}

impl View for Member {
    type V = MemberView;

    open spec fn view(&self) -> MemberView {
        MemberView { name: self.name@, value: self.value@ }
    }
}

/// The models of a list of members.
pub open spec fn members_view(members: Seq<Member>) -> Seq<MemberView> {
    members.map_values(|m: Member| m@)
}

/// The model of what parsing gives: the members, or nothing.
pub open spec fn object_view(parsed: Option<Vec<Member>>) -> Option<Seq<MemberView>> {
    match parsed {
        Some(members) => Some(members_view(members@)),
        None => None,
    }
}

/// The members of the JSON object that `text` holds, as the parser keeps
/// them; nothing if `text` is no JSON document or holds something other
/// than an object.
pub uninterp spec fn parsed_object(text: Seq<char>) -> Option<Seq<MemberView>>;

/// Whether the JSON encoder gives a literal for `text`.
pub uninterp spec fn quotes(text: Seq<char>) -> bool;

/// The sixteen hexadecimal digits, in lower case.
pub open spec fn hex_digits() -> Seq<char> {
    seq!['0', '1', '2', '3', '4', '5', '6', '7', '8', '9', 'a', 'b', 'c', 'd', 'e', 'f']
}

/// How one character stands in a JSON string literal: the quotation mark
/// and the backslash behind a backslash, the control characters below
/// U+0020 by their short escape or else as `\u00` and two hexadecimal
/// digits, and every other character as it is.
pub open spec fn escaped(c: char) -> Seq<char> {
    if c == '"' {
        seq!['\\', '"']
    } else if c == '\\' {
        seq!['\\', '\\']
    } else if c == '\u{8}' {
        seq!['\\', 'b']
    } else if c == '\t' {
        seq!['\\', 't']
    } else if c == '\n' {
        seq!['\\', 'n']
    } else if c == '\u{c}' {
        seq!['\\', 'f']
    } else if c == '\r' {
        seq!['\\', 'r']
    } else if (c as u32) < 0x20 {
        seq!['\\', 'u', '0', '0', hex_digits()[(c as u32 / 16) as int], hex_digits()[(c as u32 % 16) as int]]
    } else {
        seq![c]
    }
}

/// The characters of `text`, each as it stands in a JSON string literal.
pub open spec fn escaped_text(text: Seq<char>) -> Seq<char>
    decreases text.len(),
{
    if text.len() == 0 {
        text
    } else {
        escaped_text(text.drop_last()) + escaped(text.last())
    }
}

/// The JSON string literal for `text`: its escaped characters between
/// quotation marks.
pub open spec fn json_literal(text: Seq<char>) -> Seq<char> {
    seq!['"'] + escaped_text(text) + seq!['"']
}

/// What the JSON encoder gives for `text`: the literal, where it gives one.
pub open spec fn quoted(text: Seq<char>) -> Option<Seq<char>> {
    if quotes(text) {
        Some(json_literal(text))
    } else {
        None
    }
}

/// The model of a text that may be missing.
pub open spec fn text_view(text: Option<String>) -> Option<Seq<char>> {
    match text {
        Some(s) => Some(s@),
        None => None,
    }
}

/// Calls `serde_json::from_str` for a `Value` and copies the members of the
/// object out. What comes back is a function of the text alone.
#[verifier::external_body]
pub(crate) fn parse_object(text: &str) -> (parsed: Option<Vec<Member>>)
    ensures
        object_view(parsed) == parsed_object(text@),
{
    let Ok(Value::Object(map)) = serde_json::from_str::<Value>(text) else { return None; };
    Some(map.into_iter().map(|(name, value)| Member { name, value: match value {
        Value::String(s) => Scalar::Text(s),
        Value::Bool(b) => Scalar::Flag(b),
        Value::Number(n) => n.as_f64().map_or(Scalar::Other, |x| Scalar::Number(x.to_bits())),
        Value::Null => Scalar::Other,
        Value::Array(_) => Scalar::Other,
        Value::Object(_) => Scalar::Other,
    } }).collect())
}

/// Calls `serde_json::to_string` on a string: the JSON literal for it, or
/// nothing where the call reports failure. Whether it gives a literal is a
/// function of the text alone; the literal is the text between quotation
/// marks, with the encoder's escapes.
#[verifier::external_body]
pub(crate) fn quote(text: &str) -> (literal: Option<String>)
    ensures
        literal is Some <==> quotes(text@),
        literal matches Some(s) ==> s@ == json_literal(text@),
{
    serde_json::to_string(text).ok()
}

/// The value of the first member called `name`.
pub open spec fn member_of(members: Seq<MemberView>, name: Seq<char>) -> Option<ScalarView>
    decreases members.len(),
{
    if members.len() == 0 {
        None
    } else if members[0].name == name {
        Some(members[0].value)
    } else {
        member_of(members.drop_first(), name)
    }
}

/// The text of the member called `name`, if it is a string.
pub open spec fn text_of(members: Seq<MemberView>, name: Seq<char>) -> Option<Seq<char>> {
    match member_of(members, name) {
        Some(ScalarView::Text(s)) => Some(s),
        _ => None,
    }
}

/// The flag of the member called `name`, if it is a boolean.
pub open spec fn flag_of(members: Seq<MemberView>, name: Seq<char>) -> Option<bool> {
    match member_of(members, name) {
        Some(ScalarView::Flag(b)) => Some(b),
        _ => None,
    }
}

/// The bit pattern of the member called `name`, if it is a number.
pub open spec fn number_of(members: Seq<MemberView>, name: Seq<char>) -> Option<u64> {
    match member_of(members, name) {
        Some(ScalarView::Number(bits)) => Some(bits),
        _ => None,
    }
}

/// Finds the first member called `name`.
pub fn find<'a>(members: &'a Vec<Member>, name: &str) -> (found: Option<&'a Scalar>)
    ensures
        match found {
            Some(value) => member_of(members_view(members@), name@) == Some(value@),
            None => member_of(members_view(members@), name@) is None,
        },
{
    let mut i: usize = 0;
    proof {
        assert(members_view(members@).skip(0) =~= members_view(members@));
    }
    while i < members.len()
        invariant
            i <= members@.len(),
            member_of(members_view(members@), name@) == member_of(members_view(members@).skip(i as int), name@),
        decreases members@.len() - i,
    {
        proof {
            let rest = members_view(members@).skip(i as int);
            assert(rest[0] == members@[i as int]@);
            assert(rest.drop_first() =~= members_view(members@).skip(i + 1));
        }
        if same_text(members[i].name.as_str(), name) {
            return Some(&members[i].value);
        }
        i = i + 1;
    }
    proof {
        assert(members_view(members@).skip(members@.len() as int).len() == 0);
    }
    None
}

/// The text of the member called `name`, if it is a string.
pub fn find_text(members: &Vec<Member>, name: &str) -> (found: Option<String>)
    ensures
        match found {
            Some(s) => text_of(members_view(members@), name@) == Some(s@),
            None => text_of(members_view(members@), name@) is None,
        },
{
    match find(members, name) {
        Some(Scalar::Text(s)) => Some(s.clone()),
        _ => None,
    }
}

/// The flag of the member called `name`, if it is a boolean.
pub fn find_flag(members: &Vec<Member>, name: &str) -> (found: Option<bool>)
    ensures
        found == flag_of(members_view(members@), name@),
{
    match find(members, name) {
        Some(Scalar::Flag(b)) => Some(*b),
        _ => None,
    }
}

/// The bit pattern of the member called `name`, if it is a number.
pub fn find_number(members: &Vec<Member>, name: &str) -> (found: Option<u64>)
    ensures
        found == number_of(members_view(members@), name@),
{
    match find(members, name) {
        Some(Scalar::Number(bits)) => Some(*bits),
        _ => None,
    }
}

} // verus!
