use crate::value::Json;
use crate::value::JsonValue;
use vstd::prelude::*;

verus! {

#[verifier::external_type_specification]
#[verifier::external_body]
pub struct ExValue(serde_json::Value);

/// The JSON text that the rendering step emits for a value tree.
///
/// The text is a function of the tree's model alone: an object is
/// rendered from a map ordered by key, so two trees with the same model
/// render to the same text, whatever order their bindings were made in.
pub uninterp spec fn json_text(v: Json) -> Seq<char>;

/// Relies on serde_json's Display for Value: the compact JSON text of a
/// value depends on that value alone, and the value `to_serde` builds
/// depends only on the tree's model, since serde_json's map (a map
/// ordered by key) collapses binding order and duplicate keys exactly
/// as the model does.
#[verifier::external_body]
pub(crate) fn render(v: &JsonValue) -> (r: String)
    ensures
        r@ == json_text(v@),
{
    to_serde(v).to_string()
}

/// Relies on serde_json::Value and its conversions: rebuilds a value
/// tree as a serde_json::Value, one variant for one variant, keeping
/// array order and inserting object bindings in order. Only `render`
/// calls it.
#[verifier::external_body]
fn to_serde(v: &JsonValue) -> serde_json::Value {
    match v {
        JsonValue::Null => serde_json::Value::Null,
        JsonValue::Bool(b) => serde_json::Value::Bool(*b),
        JsonValue::Int(i) => serde_json::Value::from(*i),
        JsonValue::Str(s) => serde_json::Value::String(s.clone()),
        JsonValue::Arr(xs) => serde_json::Value::Array(xs.iter().map(to_serde).collect()),
        JsonValue::Obj(ps) => serde_json::Value::Object(
            ps.iter().map(|p| (p.0.clone(), to_serde(&p.1))).collect(),
        ),
    }
}

} // verus!
