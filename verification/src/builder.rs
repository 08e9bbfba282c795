use crate::ser::collect_trees;
use crate::ser::lemma_collect_trees_err;
use crate::ser::to_value;
use crate::ser::Serializer;
use crate::value::assoc_map;
use crate::value::bindings_of;
use crate::value::lemma_bindings_of_index;
use crate::value::models_of;
use crate::value::Json;
use crate::value::JsonValue;
use vstd::prelude::*;

verus! {

/// A failure of the scalar-serialization step: some value handed to the
/// builder had no JSON encoding.
#[derive(Debug)]
pub struct EncodeError {
    /// What went wrong, as reported by the encoder.
    pub msg: String,
}

impl View for EncodeError {
    type V = Seq<char>;

    open spec fn view(&self) -> Seq<char> {
        self.msg@
    }
}

/// The accumulator of named contributions for one object's output.
///
/// A builder lives for exactly one invocation of one mapping: the engine
/// creates it empty, the mapping fills it through `attr`, `has_one` and
/// `has_many`, and the engine converts it to a value tree. It stores a
/// map from output key to serialized value: a later write for a key
/// overwrites the earlier one, and the first encoding failure is kept
/// and makes the whole conversion fail.
pub struct Builder {
    pairs: Vec<(String, JsonValue)>,
    err: Option<EncodeError>,
}

/// Keys are pairwise distinct.
pub open spec fn distinct_keys(s: Seq<(Seq<char>, Json)>) -> bool {
    forall|i: int, j: int| 0 <= i < j < s.len() ==> (#[trigger] s[i]).0 != (#[trigger] s[j]).0
}

/// Appending a binding inserts its key.
proof fn lemma_assoc_map_push(s: Seq<(Seq<char>, Json)>, b: (Seq<char>, Json))
    ensures
        assoc_map(s.push(b)) == assoc_map(s).insert(b.0, b.1),
{
    assert(s.push(b).drop_last() =~= s);
}

/// Replacing the binding of a key, wherever it stands, is the same as
/// inserting that key anew, provided keys are distinct.
proof fn lemma_assoc_map_update(s: Seq<(Seq<char>, Json)>, i: int, v: Json)
    requires
        distinct_keys(s),
        0 <= i < s.len(),
    ensures
        assoc_map(s.update(i, (s[i].0, v))) == assoc_map(s).insert(s[i].0, v),
    decreases s.len(),
{
    let u = s.update(i, (s[i].0, v));
    if i == s.len() - 1 {
        assert(u.drop_last() =~= s.drop_last());
        assert(assoc_map(u) =~= assoc_map(s).insert(s[i].0, v));
    } else {
        assert(u.drop_last() =~= s.drop_last().update(i, (s[i].0, v)));
        lemma_assoc_map_update(s.drop_last(), i, v);
        assert(s[i].0 != s.last().0);
        assert(assoc_map(u) =~= assoc_map(s).insert(s[i].0, v));
    }
}

/// The position of the binding for `key`, if the store holds one.
fn find_key(pairs: &Vec<(String, JsonValue)>, key: &String) -> (r: Option<usize>)
    ensures
        match r {
            Some(i) => i < pairs@.len() && pairs@[i as int].0@ == key@,
            None => forall|j: int| 0 <= j < pairs@.len() ==> (#[trigger] pairs@[j]).0@ != key@,
        },
{
    let n = pairs.len();
    let mut i: usize = 0;
    while i < n
        invariant
            n == pairs@.len(),
            i <= n,
            forall|j: int| 0 <= j < i ==> (#[trigger] pairs@[j]).0@ != key@,
        decreases n - i,
    {
        if pairs[i].0 == *key {
            return Some(i);
        }
        i += 1;
    }
    None
}

impl Builder {
    /// Well-formedness: the store holds each key at most once, so a
    /// write for a key can overwrite in place.
    pub closed spec fn wf(self) -> bool {
        distinct_keys(bindings_of(self.pairs@))
    }

    /// The key/value map gathered so far.
    pub closed spec fn entries(self) -> Map<Seq<char>, Json> {
        assoc_map(bindings_of(self.pairs@))
    }

    /// The message of the first scalar-encoding failure seen so far.
    pub closed spec fn failure(self) -> Option<Seq<char>> {
        match self.err {
            Some(e) => Some(e@),
            None => None,
        }
    }

    /// What converting this builder yields: its map, unless an encoding
    /// failure poisoned it.
    pub open spec fn out(self) -> Result<Map<Seq<char>, Json>, Seq<char>> {
        match self.failure() {
            Some(e) => Err(e),
            None => Ok(self.entries()),
        }
    }

    /// Nothing gathered yet: the state in which a mapping receives a
    /// builder.
    pub open spec fn is_fresh(self) -> bool {
        self.wf() && self.entries() == Map::<Seq<char>, Json>::empty() && self.failure() is None
    }

    pub(crate) fn new() -> (b: Builder)
        ensures
            b.is_fresh(),
    {
        Builder { pairs: Vec::new(), err: None }
    }

    /// Convert the gathered map into an object-shaped value tree,
    /// unless an encoding failure poisoned the builder.
    pub(crate) fn to_value(self) -> (r: Result<JsonValue, EncodeError>)
        ensures
            match self.out() {
                Ok(m) => r matches Ok(j) && j@ == Json::Obj(m),
                Err(e) => r matches Err(er) && er@ == e,
            },
    {
        let Builder { pairs, err } = self;
        match err {
            Some(e) => Err(e),
            None => Ok(JsonValue::Obj(pairs)),
        }
    }

    /// Store `key -> value`, the outcome of the scalar serialization of
    /// one attribute. A later call with the same key wins; a failed
    /// encoding is kept and poisons the whole builder, which realizes
    /// the rule that one bad field aborts the entire call.
    pub fn attr(&mut self, key: &str, value: Result<JsonValue, EncodeError>)
        requires
            old(self).wf(),
        ensures
            final(self).wf(),
            final(self).entries() == (match value {
                Ok(v) => old(self).entries().insert(key@, v@),
                Err(_) => old(self).entries(),
            }),
            final(self).failure() == (match value {
                Ok(_) => old(self).failure(),
                Err(e) => (if old(self).failure() is Some {
                    old(self).failure()
                } else {
                    Some(e@)
                }),
            }),
    {
        match value {
            Result::Err(e) => {
                if self.err.is_none() {
                    self.err = Some(e);
                }
            },
            Result::Ok(v) => {
                let k: String = key.to_owned();
                let ghost s0 = self.pairs@;
                let ghost b0 = bindings_of(s0);
                let ghost kk: Seq<char> = k@;
                let ghost vv: Json = v@;
                match find_key(&self.pairs, &k) {
                    Some(i) => {
                        self.pairs.set(i, (k, v));
                        proof {
                            lemma_bindings_of_index(s0);
                            lemma_bindings_of_index(self.pairs@);
                            let b1 = bindings_of(self.pairs@);
                            assert(self.pairs@ == s0.update(i as int, self.pairs@[i as int]));
                            assert(self.pairs@[i as int].0@ == kk);
                            assert(self.pairs@[i as int].1 == v);
                            assert forall|j: int| 0 <= j < b1.len() implies b1[j] == b0.update(
                                i as int,
                                (kk, vv),
                            )[j] by {
                                if j != i {
                                    assert(self.pairs@[j] == s0[j]);
                                }
                            }
                            assert(b1 =~= b0.update(i as int, (kk, vv)));
                            assert(b0[i as int].0 == kk);
                            lemma_assoc_map_update(b0, i as int, vv);
                            assert forall|x: int, y: int| 0 <= x < y < b1.len() implies (
                            #[trigger] b1[x]).0 != (#[trigger] b1[y]).0 by {
                                assert(b1[x].0 == b0[x].0);
                                assert(b1[y].0 == b0[y].0);
                            }
                            assert(distinct_keys(b1));
                        }
                    },
                    None => {
                        self.pairs.push((k, v));
                        proof {
                            assert(self.pairs@.drop_last() =~= s0);
                            lemma_bindings_of_index(s0);
                            lemma_bindings_of_index(self.pairs@);
                            let b1 = bindings_of(self.pairs@);
                            assert(b1 =~= b0.push((kk, vv)));
                            lemma_assoc_map_push(b0, (kk, vv));
                            assert forall|x: int| 0 <= x < b0.len() implies (#[trigger] b0[x]).0
                                != kk by {
                                assert(b0[x].0 == s0[x].0@);
                            }
                            assert forall|x: int, y: int| 0 <= x < y < b1.len() implies (
                            #[trigger] b1[x]).0 != (#[trigger] b1[y]).0 by {
                                if y < b0.len() {
                                    assert(b1[x] == b0[x] && b1[y] == b0[y]);
                                } else {
                                    assert(b1[x] == b0[x] && b1[y].0 == kk);
                                }
                            }
                            assert(distinct_keys(b1));
                        }
                    },
                }
            },
        }
    }

    /// Add a nested object under `key`: the given mapping applied to
    /// the associated value with a fresh builder. A scalar-encoding
    /// failure inside the nested call poisons this builder instead.
    pub fn has_one<T: View, S: Serializer<T>>(&mut self, key: &str, value: &T, serializer: &S)
        requires
            old(self).wf(),
        ensures
            final(self).wf(),
            final(self).entries() == (match serializer.spec_out(value@) {
                Ok(m) => old(self).entries().insert(key@, Json::Obj(m)),
                Err(_) => old(self).entries(),
            }),
            final(self).failure() == (match serializer.spec_out(value@) {
                Ok(_) => old(self).failure(),
                Err(e) => (if old(self).failure() is Some {
                    old(self).failure()
                } else {
                    Some(e)
                }),
            }),
        decreases value, 2int,
    {
        self.attr(key, to_value(serializer, value));
    }

    /// Add a nested array under `key`: the given mapping applied to
    /// each element of the associated sequence with a fresh builder,
    /// the results collected in input order. An empty sequence leaves
    /// an empty array under the key. The first scalar-encoding failure
    /// among the elements poisons this builder instead.
    pub fn has_many<T: View, S: Serializer<T>>(&mut self, key: &str, values: &Vec<T>, serializer: &S)
        requires
            old(self).wf(),
        ensures
            final(self).wf(),
            final(self).entries() == (match collect_trees(
                Seq::new(values@.len(), |i: int| serializer.spec_out(values@[i]@)),
            ) {
                Ok(ts) => old(self).entries().insert(key@, Json::Arr(ts)),
                Err(_) => old(self).entries(),
            }),
            final(self).failure() == (match collect_trees(
                Seq::new(values@.len(), |i: int| serializer.spec_out(values@[i]@)),
            ) {
                Ok(_) => old(self).failure(),
                Err(e) => (if old(self).failure() is Some {
                    old(self).failure()
                } else {
                    Some(e)
                }),
            }),
        decreases values, 2int,
    {
        let ghost outs = Seq::new(values@.len(), |i: int| serializer.spec_out(values@[i]@));
        let mut trees: Vec<JsonValue> = Vec::new();
        let n = values.len();
        let mut i: usize = 0;
        while i < n
            invariant
                *self == *old(self),
                old(self).wf(),
                n == values@.len(),
                i <= n,
                outs == Seq::new(values@.len(), |j: int| serializer.spec_out(values@[j]@)),
                outs.len() == n,
                trees@.len() == i,
                collect_trees(outs.take(i as int)) == Ok::<Seq<Json>, Seq<char>>(
                    models_of(trees@),
                ),
            decreases n - i,
        {
            proof {
                assert(decreases_to!(values => values@));
                assert(decreases_to!(values@ => values@[i as int]));
            }
            match to_value(serializer, &values[i]) {
                Result::Ok(j) => {
                    let ghost t0 = trees@;
                    trees.push(j);
                    proof {
                        assert(outs.take(i + 1).drop_last() =~= outs.take(i as int));
                        assert(outs.take(i + 1).last() == outs[i as int]);
                        assert(trees@.drop_last() =~= t0);
                    }
                },
                Result::Err(er) => {
                    proof {
                        lemma_collect_trees_err(outs, i as int, er@);
                    }
                    self.attr(key, Err(er));
                    return ;
                },
            }
            i += 1;
        }
        proof {
            assert(outs.take(n as int) =~= outs);
        }
        self.attr(key, Ok(JsonValue::Arr(trees)));
    }
}

} // verus!
