use crate::builder::Builder;
use crate::builder::EncodeError;
use crate::render::json_text;
use crate::render::render;
use crate::value::models_of;
use crate::value::Json;
use crate::value::JsonValue;
use vstd::prelude::*;

verus! {

/// The value trees owed for a sequence of per-element mapping outputs:
/// one object per element, in order, or the first failure among them.
pub open spec fn collect_trees(outs: Seq<Result<Map<Seq<char>, Json>, Seq<char>>>) -> Result<
    Seq<Json>,
    Seq<char>,
>
    decreases outs.len(),
{
    if outs.len() == 0 {
        Ok(Seq::empty())
    } else {
        match collect_trees(outs.drop_last()) {
            Err(e) => Err(e),
            Ok(ts) => match outs.last() {
                Err(e) => Err(e),
                Ok(m) => Ok(ts.push(Json::Obj(m))),
            },
        }
    }
}

/// With every element encoded, the collected trees are one object per
/// element, in order.
pub proof fn lemma_collect_trees_ok(
    outs: Seq<Result<Map<Seq<char>, Json>, Seq<char>>>,
    ms: Seq<Map<Seq<char>, Json>>,
)
    requires
        outs.len() == ms.len(),
        forall|i: int| 0 <= i < outs.len() ==> outs[i] == Ok::<Map<Seq<char>, Json>, Seq<char>>(
            ms[i],
        ),
    ensures
        collect_trees(outs) == Ok::<Seq<Json>, Seq<char>>(
            Seq::new(outs.len(), |i: int| Json::Obj(ms[i])),
        ),
    decreases outs.len(),
{
    if outs.len() > 0 {
        lemma_collect_trees_ok(outs.drop_last(), ms.drop_last());
        assert(outs.drop_last().len() == outs.len() - 1);
        assert(Seq::new(outs.len(), |i: int| Json::Obj(ms[i])) =~= Seq::new(
            (outs.len() - 1) as nat,
            |i: int| Json::Obj(ms.drop_last()[i]),
        ).push(Json::Obj(ms.last())));
    } else {
        assert(Seq::new(outs.len(), |i: int| Json::Obj(ms[i])) =~= Seq::empty());
    }
}

/// Once some element fails to encode, the whole sequence fails with
/// the first such failure.
pub proof fn lemma_collect_trees_err(
    outs: Seq<Result<Map<Seq<char>, Json>, Seq<char>>>,
    i: int,
    e: Seq<char>,
)
    requires
        0 <= i < outs.len(),
        collect_trees(outs.take(i)) matches Ok(_),
        outs[i] == Err::<Map<Seq<char>, Json>, Seq<char>>(e),
    ensures
        collect_trees(outs) == Err::<Seq<Json>, Seq<char>>(e),
    decreases outs.len(),
{
    if outs.len() == i + 1 {
        assert(outs.drop_last() =~= outs.take(i));
    } else {
        assert(outs.drop_last().take(i) =~= outs.take(i));
        lemma_collect_trees_err(outs.drop_last(), i, e);
    }
}

/// A mapping from a typed source value to key/value contributions: the
/// trait a serializer implements. Any value with a conforming
/// `serialize_into` is a mapping; mappings are ordinary values and may
/// be passed to `has_one` and `has_many`, including the mapping itself
/// for a self-referential type.
pub trait Serializer<T: View>: Sized {
    /// The output this mapping owes for a source value: the finished
    /// key/value map, or the message of the scalar-encoding failure
    /// that aborts the call.
    spec fn spec_out(&self, v: T::V) -> Result<Map<Seq<char>, Json>, Seq<char>>;

    /// Add key/value pairs to the builder for the given object. The
    /// engine calls this with a fresh builder; it is not meant to be
    /// called directly.
    fn serialize_into(&self, value: &T, builder: &mut Builder)
        requires
            old(builder).is_fresh(),
        ensures
            final(builder).out() == self.spec_out(value@),
        decreases value, 0int,
    ;
}

/// Turn the given object into a value tree: an object node holding
/// exactly the contributions of the given mapping.
pub fn to_value<T: View, S: Serializer<T>>(serializer: &S, value: &T) -> (r: Result<
    JsonValue,
    EncodeError,
>)
    ensures
        match serializer.spec_out(value@) {
            Ok(m) => r matches Ok(j) && j@ == Json::Obj(m),
            Err(e) => r matches Err(er) && er@ == e,
        },
    decreases value, 1int,
{
    let mut builder = Builder::new();
    serializer.serialize_into(value, &mut builder);
    builder.to_value()
}

/// Turn the given object into a JSON string: the rendering of its
/// value tree under the given mapping.
pub fn serialize<T: View, S: Serializer<T>>(serializer: &S, value: &T) -> (r: Result<
    String,
    EncodeError,
>)
    ensures
        match serializer.spec_out(value@) {
            Ok(m) => r matches Ok(s) && s@ == json_text(Json::Obj(m)),
            Err(e) => r matches Err(er) && er@ == e,
        },
    decreases value, 2int,
{
    match to_value(serializer, value) {
        Result::Ok(j) => Ok(render(&j)),
        Result::Err(e) => Err(e),
    }
}

/// Turn the given vector into one JSON array document: each element
/// mapped to its value tree, in input order. This is the top-level
/// entry point for a sequence of root objects, not a nested field.
pub fn serialize_iter<T: View, S: Serializer<T>>(serializer: &S, values: &Vec<T>) -> (r: Result<
    String,
    EncodeError,
>)
    ensures
        match collect_trees(
            Seq::new(values@.len(), |i: int| serializer.spec_out(values@[i]@)),
        ) {
            Ok(ts) => r matches Ok(s) && s@ == json_text(Json::Arr(ts)),
            Err(e) => r matches Err(er) && er@ == e,
        },
    decreases values, 2int,
{
    let ghost outs = Seq::new(values@.len(), |i: int| serializer.spec_out(values@[i]@));
    let mut trees: Vec<JsonValue> = Vec::new();
    let n = values.len();
    let mut i: usize = 0;
    while i < n
        invariant
            n == values@.len(),
            i <= n,
            outs == Seq::new(values@.len(), |j: int| serializer.spec_out(values@[j]@)),
            outs.len() == n,
            trees@.len() == i,
            collect_trees(outs.take(i as int)) == Ok::<Seq<Json>, Seq<char>>(models_of(trees@)),
        decreases n - i,
    {
        proof {
            assert(decreases_to!(values => values@));
            assert(decreases_to!(values@ => values@[i as int]));
        }
        match to_value(serializer, &values[i]) {
            Result::Ok(j) => {
                let ghost t0 = trees@;
                trees.push(j);
                proof {
                    assert(outs.take(i + 1).drop_last() =~= outs.take(i as int));
                    assert(outs.take(i + 1).last() == outs[i as int]);
                    assert(trees@.drop_last() =~= t0);
                }
            },
            Result::Err(er) => {
                proof {
                    lemma_collect_trees_err(outs, i as int, er@);
                }
                return Err(er);
            },
        }
        i += 1;
    }
    proof {
        assert(outs.take(n as int) =~= outs);
    }
    Ok(render(&JsonValue::Arr(trees)))
}

} // verus!
