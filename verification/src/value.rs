use vstd::prelude::*;

verus! {

/// The JSON-shaped result of serialization: object, array, or scalar.
/// An object is kept as a list of key/value pairs; its meaning, given by
/// the view, is a map in which a later binding for a key overrides an
/// earlier one.
pub enum JsonValue {
    Null,
    Bool(bool),
    Int(i64),
    Str(String),
    Arr(Vec<JsonValue>),
    Obj(Vec<(String, JsonValue)>),
}

/// The mathematical model of a value tree. An object is a map from key
/// to value: keys are unique, and the order of insertion carries no
/// meaning.
pub enum Json {
    Null,
    Bool(bool),
    Int(int),
    Str(Seq<char>),
    Arr(Seq<Json>),
    Obj(Map<Seq<char>, Json>),
}

/// The map denoted by an association list: each binding is inserted in
/// order, so the last binding for a key wins.
pub open spec fn assoc_map(s: Seq<(Seq<char>, Json)>) -> Map<Seq<char>, Json>
    decreases s.len(),
{
    if s.len() == 0 {
        Map::empty()
    } else {
        assoc_map(s.drop_last()).insert(s.last().0, s.last().1)
    }
}

/// The model of one value tree.
pub open spec fn model_of(v: JsonValue) -> Json
    decreases v,
{
    match v {
        JsonValue::Null => Json::Null,
        JsonValue::Bool(b) => Json::Bool(b),
        JsonValue::Int(i) => Json::Int(i as int),
        JsonValue::Str(s) => Json::Str(s@),
        JsonValue::Arr(xs) => {
            proof {
                assert(decreases_to!(v => xs));
                assert(decreases_to!(xs => xs@));
            }
            Json::Arr(models_of(xs@))
        },
        JsonValue::Obj(ps) => {
            proof {
                assert(decreases_to!(v => ps));
                assert(decreases_to!(ps => ps@));
            }
            Json::Obj(assoc_map(bindings_of(ps@)))
        },
    }
}

/// The models of the elements of a sequence of value trees, in order.
pub open spec fn models_of(s: Seq<JsonValue>) -> Seq<Json>
    decreases s,
{
    if s.len() == 0 {
        Seq::empty()
    } else {
        proof {
            assert(decreases_to!(s => s.drop_last()));
            assert(decreases_to!(s => s.last()));
        }
        models_of(s.drop_last()).push(model_of(s.last()))
    }
}

/// The modelled bindings of a sequence of key/value pairs, in order.
pub open spec fn bindings_of(s: Seq<(String, JsonValue)>) -> Seq<(Seq<char>, Json)>
    decreases s,
{
    if s.len() == 0 {
        Seq::empty()
    } else {
        proof {
            assert(decreases_to!(s => s.drop_last()));
            assert(decreases_to!(s => s.last()));
            assert(decreases_to!(s.last() => s.last().1));
        }
        bindings_of(s.drop_last()).push((s.last().0@, model_of(s.last().1)))
    }
}

impl View for JsonValue {
    type V = Json;

    open spec fn view(&self) -> Json {
        model_of(*self)
    }
}

/// `models_of` maps the sequence elementwise.
pub proof fn lemma_models_of_index(s: Seq<JsonValue>)
    ensures
        models_of(s).len() == s.len(),
        forall|i: int| 0 <= i < s.len() ==> models_of(s)[i] == model_of(#[trigger] s[i]),
    decreases s.len(),
{
    if s.len() > 0 {
        lemma_models_of_index(s.drop_last());
        assert forall|i: int| 0 <= i < s.len() implies models_of(s)[i] == model_of(
            #[trigger] s[i],
        ) by {
            if i < s.len() - 1 {
                assert(s.drop_last()[i] == s[i]);
            } else {
                assert(s[i] == s.last());
            }
        }
    }
}

/// `bindings_of` maps the sequence elementwise.
pub proof fn lemma_bindings_of_index(s: Seq<(String, JsonValue)>)
    ensures
        bindings_of(s).len() == s.len(),
        forall|i: int| 0 <= i < s.len() ==> bindings_of(s)[i] == ((#[trigger] s[i]).0@,
        model_of(s[i].1)),
    decreases s.len(),
{
    if s.len() > 0 {
        lemma_bindings_of_index(s.drop_last());
        assert forall|i: int| 0 <= i < s.len() implies bindings_of(s)[i] == ((#[trigger] s[i]).0@,
        model_of(s[i].1)) by {
            if i < s.len() - 1 {
                assert(s.drop_last()[i] == s[i]);
            } else {
                assert(s[i] == s.last());
            }
        }
    }
}

} // verus!
