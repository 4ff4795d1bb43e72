//! JSON values, held in `serde_json`'s types.

use vstd::prelude::*;

verus! {

#[verifier::external_type_specification]
#[verifier::external_body]
pub struct ExValue(serde_json::Value);

#[verifier::external_type_specification]
#[verifier::external_body]
#[verifier::reject_recursive_types(K)]
#[verifier::reject_recursive_types(V)]
pub struct ExMap<K, V>(serde_json::Map<K, V>);

/// The text that `serde_json::to_string` gives for a value, or `None` where it
/// gives an error.
pub uninterp spec fn json_text(value: serde_json::Value) -> Option<Seq<char>>;

/// The text that a value's `Display` gives.
pub uninterp spec fn json_display(value: serde_json::Value) -> Seq<char>;

/// The characters of a value that is a JSON string.
pub uninterp spec fn json_string(value: serde_json::Value) -> Option<Seq<char>>;

/// The items of a value that is a JSON array.
pub uninterp spec fn json_items(value: serde_json::Value) -> Option<Seq<serde_json::Value>>;

/// The members of a value that is a JSON object, in the order in which
/// `serde_json` walks them.
pub uninterp spec fn json_members(value: serde_json::Value) -> Option<
    Seq<(Seq<char>, serde_json::Value)>,
>;

/// The names under which a `serde_json::Map` holds values.
pub uninterp spec fn json_keys(map: serde_json::Map<String, serde_json::Value>) -> Set<Seq<char>>;

/// The value of the member with a name.
pub open spec fn member(
    members: Seq<(Seq<char>, serde_json::Value)>,
    name: Seq<char>,
) -> Option<serde_json::Value> {
    if exists|i: int| 0 <= i < members.len() && (#[trigger] members[i]).0 == name {
        let i = choose|i: int| 0 <= i < members.len() && (#[trigger] members[i]).0 == name;
        Some(members[i].1)
    } else {
        None
    }
}

/// The value of the member with a name, where a value is a JSON object.
pub open spec fn json_field(value: serde_json::Value, name: Seq<char>) -> Option<
    serde_json::Value,
> {
    match json_members(value) {
        Some(members) => member(members, name),
        None => None,
    }
}

/// Where a scan of a JSON text stands.
pub ghost struct Scan {
    /// Between the quotes of a string.
    pub quoted: bool,
    /// Right behind a backslash that escapes what follows.
    pub escaped: bool,
    /// Within how many brackets and braces.
    pub depth: int,
}

/// Where a scan stands after one more character.
pub open spec fn scan_on(scan: Scan, c: char) -> Scan {
    if scan.escaped {
        Scan { escaped: false, ..scan }
    } else if c == '\\' {
        Scan { escaped: true, ..scan }
    } else if c == '"' {
        Scan { quoted: !scan.quoted, ..scan }
    } else if !scan.quoted && (c == '{' || c == '[') {
        Scan { depth: scan.depth + 1, ..scan }
    } else if !scan.quoted && (c == '}' || c == ']') {
        Scan { depth: scan.depth - 1, ..scan }
    } else {
        scan
    }
}

/// Where a scan stands that went over a text.
pub open spec fn scan_over(scan: Scan, text: Seq<char>) -> Scan
    decreases text.len(),
{
    if text.len() == 0 {
        scan
    } else {
        scan_on(scan_over(scan, text.drop_last()), text.last())
    }
}

/// Where a scan begins: outside strings, brackets and braces.
pub open spec fn scan_start() -> Scan {
    Scan { quoted: false, escaped: false, depth: 0 }
}

/// A text has the outline of a JSON text: its strings, brackets and braces are
/// closed, and a colon stands in a string or within braces.
pub open spec fn is_json_shaped(text: Seq<char>) -> bool {
    &&& scan_over(scan_start(), text) == scan_start()
    &&& forall|i: int|
        0 <= i < text.len() && #[trigger] text[i] == ':' ==> {
            let scan = scan_over(scan_start(), text.take(i));
            scan.quoted || scan.depth > 0
        }
}

/// `serde_json::to_string` on a value. Its text is named. Of the text it is
/// stated that it has the outline of a JSON text: quotes and backslashes in
/// strings are escaped, strings, arrays and objects are closed, and outside
/// strings a colon only stands between a name and a value of an object.
#[verifier::external_body]
pub(crate) fn to_json_text(value: &serde_json::Value) -> (text: Option<String>)
    ensures
        match text {
            Some(t) => json_text(*value) == Some(t@) && is_json_shaped(t@),
            None => json_text(*value) is None,
        },
{
    serde_json::to_string(value).ok()
}

/// `to_string` on a value, through `serde_json`'s `Display`. Its text is
/// named, not stated.
#[verifier::external_body]
pub(crate) fn display(value: &serde_json::Value) -> (text: String)
    ensures
        text@ == json_display(*value),
{
    value.to_string()
}

/// `serde_json::Value::as_str`: the characters of a JSON string, `None` for
/// any other value.
#[verifier::external_body]
pub(crate) fn as_str(value: &serde_json::Value) -> (text: Option<&str>)
    ensures
        match text {
            Some(t) => json_string(*value) == Some(t@),
            None => json_string(*value) is None,
        },
{
    value.as_str()
}

/// `serde_json::Value::as_array`: the items of a JSON array, `None` for any
/// other value.
#[verifier::external_body]
pub(crate) fn as_array(value: &serde_json::Value) -> (items: Option<&Vec<serde_json::Value>>)
    ensures
        match items {
            Some(i) => json_items(*value) == Some(i@),
            None => json_items(*value) is None,
        },
{
    value.as_array()
}

/// The names and values that a vector of pairs holds.
pub open spec fn named_values(pairs: Seq<(String, &serde_json::Value)>) -> Seq<
    (Seq<char>, serde_json::Value),
> {
    pairs.map_values(|pair: (String, &serde_json::Value)| (pair.0@, *pair.1))
}

/// `serde_json::Value::as_object` and `serde_json::Map::iter`: the members of
/// a JSON object, each name once, `None` for any other value.
#[verifier::external_body]
pub(crate) fn as_object(value: &serde_json::Value) -> (members: Option<
    Vec<(String, &serde_json::Value)>,
>)
    ensures
        match members {
            Some(m) => {
                &&& json_members(*value) == Some(named_values(m@))
                &&& forall|i: int, j: int|
                    0 <= i < j < m@.len() ==> (#[trigger] m@[i]).0@ != (#[trigger] m@[j]).0@
            },
            None => json_members(*value) is None,
        },
{
    value.as_object().map(|m| m.iter().map(|(name, v)| (name.clone(), v)).collect())
}

/// `serde_json::Value::get` with a name: the value of the member with that
/// name, `None` where there is no such member and for any value that is no
/// object.
#[verifier::external_body]
pub(crate) fn get<'a>(value: &'a serde_json::Value, name: &str) -> (found: Option<
    &'a serde_json::Value,
>)
    ensures
        match found {
            Some(v) => json_field(*value, name@) == Some(*v),
            None => json_field(*value, name@) is None,
        },
{
    value.get(name)
}

/// `serde_json::Map::is_empty`: whether a map holds nothing.
#[verifier::external_body]
pub(crate) fn map_is_empty(map: &serde_json::Map<String, serde_json::Value>) -> (empty: bool)
    ensures
        empty == (json_keys(*map) == Set::<Seq<char>>::empty()),
{
    map.is_empty()
}

/// Where each name stands once, the member with a name is the one that is
/// found; where none has the name, nothing is.
pub proof fn members_are_found_by_name(
    members: Seq<(Seq<char>, serde_json::Value)>,
    name: Seq<char>,
    i: int,
)
    requires
        forall|a: int, b: int|
            0 <= a < b < members.len() ==> (#[trigger] members[a]).0 != (#[trigger] members[b]).0,
    ensures
        0 <= i < members.len() && members[i].0 == name ==> member(members, name) == Some(
            members[i].1,
        ),
        (forall|j: int| 0 <= j < members.len() ==> (#[trigger] members[j]).0 != name) ==> member(
            members,
            name,
        ) is None,
{
    if 0 <= i < members.len() && members[i].0 == name {
        let j = choose|j: int| 0 <= j < members.len() && (#[trigger] members[j]).0 == name;
        if i < j {
            assert(members[i].0 != members[j].0);
        } else if j < i {
            assert(members[j].0 != members[i].0);
        }
    }
}

/// The field of a value is its member with that name, and only objects have
/// fields.
pub proof fn fields_are_members(value: serde_json::Value, name: Seq<char>)
    ensures
        json_members(value) matches Some(members) ==> json_field(value, name) == member(
            members,
            name,
        ),
        json_members(value) is None ==> json_field(value, name) is None,
{
}

/// Pairs give the names and values that they hold, in their order.
pub proof fn pairs_give_names_and_values(pairs: Seq<(String, &serde_json::Value)>)
    ensures
        named_values(pairs).len() == pairs.len(),
        forall|i: int|
            0 <= i < pairs.len() ==> #[trigger] named_values(pairs)[i] == (
                pairs[i].0@,
                *pairs[i].1,
            ),
{
}

} // verus!
