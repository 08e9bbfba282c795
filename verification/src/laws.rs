use crate::builder::Builder;
use crate::value::Json;
use vstd::prelude::*;

verus! {

/// Writing a key stores exactly its value, and adds exactly that key
/// to the object's key set: what a scalar-only mapping declares is
/// what the produced object holds.
pub proof fn lemma_attr_key_set(m: Map<Seq<char>, Json>, k: Seq<char>, v: Json)
    ensures
        m.insert(k, v).dom() == m.dom().insert(k),
        m.insert(k, v)[k] == v,
{
}

/// Writing the same key twice keeps only the second value: the later
/// write wins, whatever was stored under the key before.
pub proof fn lemma_attr_overwrite(m: Map<Seq<char>, Json>, k: Seq<char>, v1: Json, v2: Json)
    ensures
        m.insert(k, v1).insert(k, v2) == m.insert(k, v2),
        m.insert(k, v1).insert(k, v2)[k] == v2,
{
    assert(m.insert(k, v1).insert(k, v2) =~= m.insert(k, v2));
}

/// An empty association stores an empty array under its key: the key
/// is present, and its value is an array, never null.
pub proof fn lemma_empty_association(m: Map<Seq<char>, Json>, k: Seq<char>)
    ensures
        crate::ser::collect_trees(Seq::empty()) == Ok::<Seq<Json>, Seq<char>>(Seq::empty()),
        m.insert(k, Json::Arr(Seq::empty())).dom().contains(k),
        m.insert(k, Json::Arr(Seq::empty()))[k] == Json::Arr(Seq::empty()),
        m.insert(k, Json::Arr(Seq::empty()))[k] != Json::Null,
{
}

/// Serializing many is the array of the single value trees: for two
/// sources whose mapping outputs are `mx` and `my`, the collected
/// trees are exactly those two objects, in that order.
pub proof fn lemma_two_trees(
    outs: Seq<Result<Map<Seq<char>, Json>, Seq<char>>>,
    mx: Map<Seq<char>, Json>,
    my: Map<Seq<char>, Json>,
)
    requires
        outs.len() == 2,
        outs[0] == Ok::<Map<Seq<char>, Json>, Seq<char>>(mx),
        outs[1] == Ok::<Map<Seq<char>, Json>, Seq<char>>(my),
    ensures
        crate::ser::collect_trees(outs) == Ok::<Seq<Json>, Seq<char>>(
            seq![Json::Obj(mx), Json::Obj(my)],
        ),
{
    let ms = seq![mx, my];
    crate::ser::lemma_collect_trees_ok(outs, ms);
    assert(Seq::new(outs.len(), |i: int| Json::Obj(ms[i])) =~= seq![
        Json::Obj(mx),
        Json::Obj(my),
    ]);
}

/// Renaming an output key moves a value, it never changes it: under
/// either key the stored value is the same.
pub proof fn lemma_rename_key(m: Map<Seq<char>, Json>, k1: Seq<char>, k2: Seq<char>, v: Json)
    ensures
        m.insert(k1, v)[k1] == m.insert(k2, v)[k2],
{
}

/// One failed field decides the whole call: a builder that saw a
/// scalar-encoding failure never yields a map, whatever else it holds.
pub proof fn lemma_failure_aborts(b: Builder)
    requires
        b.failure() is Some,
    ensures
        b.out() is Err,
{
}

} // verus!
