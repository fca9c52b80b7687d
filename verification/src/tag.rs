//! Tag names, tag values and the rules that they obey.
use crate::error::StoreError;
use crate::strmap::StrMap;
use vstd::prelude::*;
use vstd::std_specs::iter::IteratorSpec;
use vstd::string::*;

verus! {

/// A point in time: whole seconds since the Unix epoch and the nanoseconds within that second.
#[derive(Clone, Copy, Debug, PartialEq, Eq, Structural)]
pub struct Timestamp {
    pub secs: i64,
    pub nanos: u32,
}

/// Staged tag values by tag name. An absent value is a null marker, not a deletion.
pub type Tags = StrMap<Option<String>>;

/// Stored tag values by tag name.
pub type TagDict = StrMap<TagValue>;

/// The longest tag name that is accepted, in characters.
pub const MAX_TAG_NAME_LEN: usize = 200;

/// The longest tag value that is accepted, in characters.
pub const MAX_TAG_VALUE_LEN: usize = 2000;

/// Whether Unicode counts `c` as a letter or a number.
pub uninterp spec fn char_is_alphanumeric(c: char) -> bool;

/// Calls `char::is_alphanumeric` of std. The result is named, since the Unicode tables behind
/// it are not written out here. Taken on trust: the ASCII letters and digits are
/// alphanumeric; the space, `@` and `#` are not.
#[verifier::external_body]
fn is_alphanumeric(c: char) -> (r: bool)
    ensures
        r == char_is_alphanumeric(c),
        ('a' <= c <= 'z' || 'A' <= c <= 'Z' || '0' <= c <= '9') ==> r,
        (c == ' ' || c == '@' || c == '#') ==> !r,
{
    c.is_alphanumeric()
}

/// A character that may stand anywhere in a tag name.
pub open spec fn plain_char(c: char) -> bool {
    char_is_alphanumeric(c) || c == '_' || c == ':' || c == '\u{b7}' || c == '.' || c
        == '\u{ff1a}'
}

/// A character that may stand after the first place of a tag name.
pub open spec fn tag_char(c: char) -> bool {
    plain_char(c) || c == ' '
}

/// A character that may stand in the first place of a tag name.
pub open spec fn first_tag_char(c: char) -> bool {
    c == '@' || c == '#' || plain_char(c)
}

/// An ASCII letter, an ASCII digit, `_`, `:` or `.`.
pub open spec fn ascii_plain(c: char) -> bool {
    'a' <= c <= 'z' || 'A' <= c <= 'Z' || '0' <= c <= '9' || c == '_' || c == ':' || c == '.'
}

/// A name of 1 to 200 characters, all of them ASCII letters, ASCII digits, `_`, `:` or `.`,
/// but for a first character that may also be `@` or `#`.
pub open spec fn ascii_tag_name(s: Seq<char>) -> bool {
    &&& 0 < s.len() <= MAX_TAG_NAME_LEN
    &&& ascii_plain(s[0]) || s[0] == '@' || s[0] == '#'
    &&& forall|i: int| 1 <= i < s.len() ==> ascii_plain(#[trigger] s[i])
}

pub fn valid_nonspace_tag_char(c: char) -> (r: bool)
    ensures
        r == plain_char(c),
        ascii_plain(c) ==> r,
        (c == ' ' || c == '@' || c == '#') ==> !r,
{
    is_alphanumeric(c) || c == '_' || c == ':' || c == '\u{b7}' || c == '.' || c == '\u{ff1a}'
}

pub fn valid_tag_char(c: char) -> (r: bool)
    ensures
        r == tag_char(c),
        ascii_plain(c) ==> r,
{
    valid_nonspace_tag_char(c) || c == ' '
}

/// The position of the first `.` of `s` at or after `i`, or the length of `s` if there is none.
pub open spec fn dot_from(s: Seq<char>, i: int) -> int
    decreases s.len() - i,
{
    if i < 0 || i >= s.len() || s[i] == '.' {
        i
    } else {
        dot_from(s, i + 1)
    }
}

/// The scope of a tag name: for a name that begins with `@`, what stands before its first
/// `.` (the whole name if it has none); for any other name, nothing.
pub open spec fn scope_spec(s: Seq<char>) -> Seq<char> {
    if s.len() > 0 && s[0] == '@' {
        s.take(dot_from(s, 0))
    } else {
        Seq::empty()
    }
}

fn empty_str() -> (r: &'static str)
    ensures
        r@ == Seq::<char>::empty(),
{
    proof {
        reveal_strlit("");
    }
    assert(""@ =~= Seq::<char>::empty());
    ""
}

pub fn scope_of(tag: &str) -> (r: &str)
    ensures
        r@ == scope_spec(tag@),
{
    broadcast use {axiom_spec_iter, next_postcondition};

    let n = tag.unicode_len();
    let mut it = tag.chars();
    let mut i: usize = 0;
    assert(tag@.skip(0) =~= tag@);
    loop
        invariant_except_break
            IteratorSpec::remaining(&it) == tag@.skip(i as int),
        invariant
            n == tag@.len(),
            i <= n,
            i > 0 ==> tag@[0] == '@',
            dot_from(tag@, 0) == dot_from(tag@, i as int),
        ensures
            0 < i <= n,
            dot_from(tag@, 0) == i,
        decreases n - i,
    {
        let ghost rest = IteratorSpec::remaining(&it);
        match it.next() {
            Some(c) => {
                assert(rest.len() > 0);
                assert(c == tag@[i as int]);
                assert(tag@.skip(i as int).drop_first() =~= tag@.skip(i + 1));
                if i == 0 && c != '@' {
                    return empty_str();
                }
                if c == '.' {
                    break ;
                }
                i += 1;
            },
            None => {
                assert(rest.len() == 0);
                if i == 0 {
                    return empty_str();
                }
                break ;
            },
        }
    }
    tag.substring_char(0, i)
}

/// What is wrong with a tag name or a tag value.
pub enum TagFault {
    Empty,
    InvalidChar,
    TooLong,
    ValueTooLong,
}

/// The words in which a fault is reported.
pub open spec fn fault_text(f: TagFault) -> Seq<char> {
    match f {
        TagFault::Empty => "empty tag"@,
        TagFault::InvalidChar => "invalid tag"@,
        TagFault::TooLong => "tag too long"@,
        TagFault::ValueTooLong => "value too long"@,
    }
}

/// Every character of the name is allowed in its place.
pub open spec fn tag_chars_ok(s: Seq<char>) -> bool {
    s.len() > 0 && first_tag_char(s[0]) && forall|i: int| 1 <= i < s.len() ==> tag_char(#[trigger] s[i])
}

/// The first rule that a tag name breaks, if it breaks one.
pub open spec fn tag_name_fault(s: Seq<char>) -> Option<TagFault> {
    if s.len() == 0 {
        Some(TagFault::Empty)
    } else if !tag_chars_ok(s) {
        Some(TagFault::InvalidChar)
    } else if s.len() > MAX_TAG_NAME_LEN {
        Some(TagFault::TooLong)
    } else {
        None
    }
}

/// A tag name is valid if it is not empty, begins with `@`, `#` or a plain character,
/// goes on with plain characters and spaces, and has at most 200 characters.
pub open spec fn valid_tag_name(s: Seq<char>) -> bool {
    0 < s.len() <= MAX_TAG_NAME_LEN && tag_chars_ok(s)
}

/// The rule that a tag value breaks, if it breaks one.
pub open spec fn tag_value_fault(value: Option<Seq<char>>) -> Option<TagFault> {
    match value {
        Some(v) if v.len() > MAX_TAG_VALUE_LEN => Some(TagFault::ValueTooLong),
        _ => None,
    }
}

/// What a validation returns for a tag and the fault found in it.
pub open spec fn reports(r: Result<(), StoreError>, tag: Seq<char>, fault: Option<TagFault>) -> bool {
    match fault {
        None => r.is_ok(),
        Some(f) => r.is_err() && r.unwrap_err().is_invalid_tag(tag, fault_text(f)),
    }
}

fn invalid_tag(tag: &str, reason: &str) -> (e: StoreError)
    ensures
        e.is_invalid_tag(tag@, reason@),
{
    StoreError::InvalidTag { tag: String::from_str(tag), reason: String::from_str(reason) }
}

pub fn validate_tag_name(tag: &str) -> (r: Result<(), StoreError>)
    ensures
        r.is_ok() == valid_tag_name(tag@),
        reports(r, tag@, tag_name_fault(tag@)),
        ascii_tag_name(tag@) ==> r.is_ok(),
        tag@.len() > 0 && tag@[0] == ' ' ==> r.is_err(),
{
    broadcast use {axiom_spec_iter, next_postcondition};

    let n = tag.unicode_len();
    if n == 0 {
        return Err(invalid_tag(tag, "empty tag"));
    }
    let mut it = tag.chars();
    let mut i: usize = 0;
    assert(tag@.skip(0) =~= tag@);
    loop
        invariant
            n == tag@.len(),
            i <= n,
            IteratorSpec::remaining(&it) == tag@.skip(i as int),
            i > 0 ==> first_tag_char(tag@[0]),
            i > 0 ==> (ascii_plain(tag@[0]) || tag@[0] == '@' || tag@[0] == '#' || !ascii_tag_name(
                tag@,
            )),
            i > 0 ==> tag@[0] != ' ',
            forall|j: int| 1 <= j < i ==> tag_char(#[trigger] tag@[j]),
        ensures
            i == n,
        decreases n - i,
    {
        let ghost rest = IteratorSpec::remaining(&it);
        match it.next() {
            Some(c) => {
                assert(rest.len() > 0);
                assert(c == tag@[i as int]);
                assert(tag@.skip(i as int).drop_first() =~= tag@.skip(i + 1));
                let ok = if i == 0 {
                    c == '@' || c == '#' || valid_nonspace_tag_char(c)
                } else {
                    valid_tag_char(c)
                };
                if !ok {
                    return Err(invalid_tag(tag, "invalid tag"));
                }
                i += 1;
            },
            None => {
                assert(rest.len() == 0);
                break ;
            },
        }
    }
    if n > MAX_TAG_NAME_LEN {
        return Err(invalid_tag(tag, "tag too long"));
    }
    Ok(())
}

pub fn validate_tag_value(tag: &str, value: Option<&str>) -> (r: Result<(), StoreError>)
    ensures
        r.is_ok() == (value.is_none() || value.unwrap()@.len() <= MAX_TAG_VALUE_LEN),
        reports(
            r,
            tag@,
            tag_value_fault(
                match value {
                    Some(v) => Some(v@),
                    None => None,
                },
            ),
        ),
{
    match value {
        Some(v) => {
            if v.unicode_len() > MAX_TAG_VALUE_LEN {
                return Err(invalid_tag(tag, "value too long"));
            }
            Ok(())
        },
        None => Ok(()),
    }
}

/// A stored tag: its value and the time of its last write.
#[derive(Clone, Debug, PartialEq, Eq)]
pub struct TagValue {
    pub value: Option<String>,
    pub updated: Timestamp,
}

/// What a stored tag holds.
pub struct TagValueView {
    pub value: Option<Seq<char>>,
    pub updated: Timestamp,
}

impl DeepView for TagValue {
    type V = TagValueView;

    open spec fn deep_view(&self) -> TagValueView {
        TagValueView { value: self.value.deep_view(), updated: self.updated }
    }
}

impl TagValue {
    pub fn new(value: Option<String>, time: Timestamp) -> (r: Self)
        ensures
            r.value == value,
            r.updated == time,
    {
        Self { value, updated: time }
    }
}

/// The stored form of staged values that are all written at the time `t`.
pub open spec fn stamped(m: Map<Seq<char>, Option<Seq<char>>>, t: Timestamp) -> Map<
    Seq<char>,
    TagValueView,
> {
    Map::new(|k: Seq<char>| m.contains_key(k), |k: Seq<char>| TagValueView { value: m[k], updated: t })
}

/// A copy of a staged value.
pub fn clone_value(v: &Option<String>) -> (r: Option<String>)
    ensures
        r == *v,
{
    match v {
        Some(s) => Some(s.clone()),
        None => None,
    }
}

/// A copy of staged values.
pub fn clone_tags(tags: &Tags) -> (r: Tags)
    ensures
        r@ == tags@,
{
    let mut copy: Tags = StrMap::new();
    let n = tags.len();
    let mut i: usize = 0;
    proof {
        tags.lemma_view();
    }
    while i < n
        invariant
            n == tags.entries().len(),
            i <= n,
            copy@ == tags.prefix(i as int),
        decreases n - i,
    {
        proof {
            tags.lemma_prefix_step(i as int);
        }
        copy.insert(tags.key_at(i).clone(), clone_value(tags.value_at(i)));
        i += 1;
    }
    copy
}

/// The stored form of `tags`, every value stamped with the time `now`.
pub fn tag_dict_at(tags: &Tags, now: Timestamp) -> (r: TagDict)
    ensures
        r@ == stamped(tags@, now),
{
    let mut dict: TagDict = StrMap::new();
    let n = tags.len();
    let mut i: usize = 0;
    proof {
        tags.lemma_view();
        assert(dict@ =~= stamped(tags.prefix(0), now));
    }
    while i < n
        invariant
            n == tags.entries().len(),
            i <= n,
            dict@ == stamped(tags.prefix(i as int), now),
        decreases n - i,
    {
        let k = tags.key_at(i).clone();
        let v = clone_value(tags.value_at(i));
        proof {
            tags.lemma_prefix_step(i as int);
        }
        dict.insert(k, TagValue::new(v, now));
        assert(dict@ =~= stamped(tags.prefix(i + 1), now));
        i += 1;
    }
    proof {
        tags.lemma_view();
    }
    dict
}

/// Reads the system clock and hands the time back as plain numbers, through chrono's
/// conversion of a `std::time::SystemTime` into a `DateTime<Utc>`. Nothing is promised of
/// the time. A clock that stands before the Unix epoch gives a negative number of seconds.
#[verifier::external_body]
pub(crate) fn now_utc() -> (t: Timestamp) {
    let now = chrono::DateTime::<chrono::Utc>::from(std::time::SystemTime::now());
    Timestamp { secs: now.timestamp(), nanos: now.timestamp_subsec_nanos() }
}

/// The stored form of `tags`, stamped with the current time, which is returned with it.
pub fn to_tag_dict(tags: Tags) -> (r: (Timestamp, TagDict))
    ensures
        r.1@ == stamped(tags@, r.0),
{
    let now = now_utc();
    let dict = tag_dict_at(&tags, now);
    (now, dict)
}

} // verus!
