use vstd::prelude::*;

verus! {

#[verifier::external_type_specification]
#[verifier::external_body]
pub struct ExJsonValue(serde_json::Value);

#[verifier::external_type_specification]
#[verifier::external_body]
#[verifier::reject_recursive_types(K)]
#[verifier::reject_recursive_types(V)]
pub struct ExJsonMap<K, V>(serde_json::Map<K, V>);

/// The entries of a JSON object: each key with its value.
pub uninterp spec fn json_entries(m: serde_json::Map<String, serde_json::Value>) -> Map<
    Seq<char>,
    serde_json::Value,
>;

/// What `From<u32> for serde_json::Value` returns: the JSON number `n`.
pub uninterp spec fn json_u32(n: u32) -> serde_json::Value;

/// What `From<String> for serde_json::Value` returns: the JSON string `s`.
pub uninterp spec fn json_text(s: Seq<char>) -> serde_json::Value;

/// Relies on `serde_json::Map::contains_key`: whether the object has the key.
#[verifier::external_body]
fn has_key(m: &serde_json::Map<String, serde_json::Value>, key: &str) -> (r: bool)
    ensures
        r == json_entries(*m).contains_key(key@),
{
    m.contains_key(key)
}

/// Relies on `serde_json::Map::insert`: the key maps to the new value afterwards; every other
/// entry is kept.
#[verifier::external_body]
fn insert_field(m: &mut serde_json::Map<String, serde_json::Value>, key: &str, v: serde_json::Value)
    ensures
        json_entries(*final(m)) == json_entries(*old(m)).insert(key@, v),
{
    m.insert(key.to_string(), v);
}

/// Relies on `From<u32> for serde_json::Value`: the JSON number `n`, a function of `n` alone.
#[verifier::external_body]
fn number_value(n: u32) -> (r: serde_json::Value)
    ensures
        r == json_u32(n),
{
    serde_json::Value::from(n)
}

/// Relies on `From<String> for serde_json::Value`: the JSON string holding `s`, a function
/// of its characters alone.
#[verifier::external_body]
fn text_value(s: String) -> (r: serde_json::Value)
    ensures
        r == json_text(s@),
{
    serde_json::Value::from(s)
}

/// Sets the level object's `name` to the string `name`, adding the key if it is missing;
/// every other entry is kept.
pub fn set_level_name(level: &mut serde_json::Map<String, serde_json::Value>, name: String)
    ensures
        json_entries(*final(level)) == json_entries(*old(level)).insert("name"@, json_text(name@)),
{
    insert_field(level, "name", text_value(name));
}

/// Sets the level object's `id` to the number `id`, adding the key if it is missing; every
/// other entry is kept.
pub fn set_numeric_id(level: &mut serde_json::Map<String, serde_json::Value>, id: u32)
    ensures
        json_entries(*final(level)) == json_entries(*old(level)).insert("id"@, json_u32(id)),
{
    insert_field(level, "id", number_value(id));
}

/// Adds `"totalFood": total_food` to a level object that lacks the key, keeping every other
/// entry, and says whether it did; an object that has the key is left exactly as it is.
pub fn add_total_food(level: &mut serde_json::Map<String, serde_json::Value>, total_food: u32) -> (added: bool)
    ensures
        added == !json_entries(*old(level)).contains_key("totalFood"@),
        added ==> json_entries(*final(level)) == json_entries(*old(level)).insert(
            "totalFood"@,
            json_u32(total_food),
        ),
        !added ==> *final(level) == *old(level),
{
    if has_key(level, "totalFood") {
        return false;
    }
    insert_field(level, "totalFood", number_value(total_food));
    true
}

} // verus!
