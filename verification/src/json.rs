use vstd::prelude::*;

verus! {

/// The three members of a level document, as one JSON extraction yields
/// them. A numeric member may be absent (outer `None`) or present but not an
/// integer in the signed 64-bit range (inner `None`); the map is the rows of
/// cell strings, or `None` when the member is absent or is not an array of
/// arrays of strings.
pub struct LevelFields {
    pub target_points: Option<Option<i64>>,
    pub updates_per_second: Option<Option<i64>>,
    pub map: Option<Vec<Vec<String>>>,
}

/// What parsing a level document yields, as a function of the text alone:
/// `None` when the text is not well-formed JSON, and otherwise the three
/// members in the shape `LevelFields` describes (the map as its grid of
/// cell character sequences). serde_json's parse is deterministic in the
/// text, so the result is named rather than spelled out.
pub uninterp spec fn level_fields_of(s: Seq<char>) -> Option<
    (Option<Option<i64>>, Option<Option<i64>>, Option<Seq<Seq<Seq<char>>>>),
>;

/// Relies on serde_json: `from_str::<Value>` parses the document (a syntax
/// error or over-deep nesting yields an error, never a panic), `Value::get`
/// looks a member up, `Value::as_i64` reads an integer in the signed 64-bit
/// range, and `Value::as_array` / `Value::as_str` read the map's rows and
/// cells. The result is exactly the named parse of the text.
#[verifier::external_body]
pub fn extract_level_fields(contents: &str) -> (r: Option<LevelFields>)
    ensures
        r is Some <==> level_fields_of(contents@) is Some,
        r matches Some(f) ==> (level_fields_of(contents@) matches Some(g)
            && f.target_points == g.0 && f.updates_per_second == g.1 && (f.map is Some <==> g.2
            is Some) && (f.map matches Some(m) ==> m.deep_view() == g.2.unwrap())),
{
    let json: serde_json::Value = serde_json::from_str(contents).ok()?;
    let target_points = json.get("target_points").map(serde_json::Value::as_i64);
    let updates_per_second = json.get("updates_per_second").map(serde_json::Value::as_i64);
    let map: Option<Vec<Vec<String>>> = json.get("map").and_then(|rows| {
        rows.as_array()?
            .iter()
            .map(|row| row.as_array()?.iter().map(|c| Some(c.as_str()?.to_owned())).collect())
            .collect()
    });
    Some(LevelFields { target_points, updates_per_second, map })
}

} // verus!
