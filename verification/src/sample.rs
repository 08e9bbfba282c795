use crate::builder::Builder;
use crate::builder::EncodeError;
use crate::ser::Serializer;
use crate::value::lemma_models_of_index;
use crate::value::models_of;
use crate::value::Json;
use crate::value::JsonValue;
use vstd::prelude::*;

verus! {

/// A country: the nested record of the worked example.
pub struct Country {
    pub id: i64,
}

/// The model of a country.
pub struct CountryView {
    pub id: int,
}

impl View for Country {
    type V = CountryView;

    open spec fn view(&self) -> CountryView {
        CountryView { id: self.id as int }
    }
}

/// The map a `CountrySerializer` produces: the country's id under
/// `"id"`.
pub open spec fn country_map(c: CountryView) -> Map<Seq<char>, Json> {
    map!["id"@ => Json::Int(c.id)]
}

/// Maps a country to `{"id": <id>}`.
#[derive(Debug, PartialEq, Eq)]
pub struct CountrySerializer;

impl Serializer<Country> for CountrySerializer {
    open spec fn spec_out(&self, c: CountryView) -> Result<Map<Seq<char>, Json>, Seq<char>> {
        Ok(country_map(c))
    }

    fn serialize_into(&self, value: &Country, builder: &mut Builder) {
        builder.attr("id", Ok(JsonValue::Int(value.id)));
        proof {
            assert(builder.entries() =~= country_map(value@));
        }
    }
}

/// Maps a country to `{"identifier": <id>}`: the same value as
/// `CountrySerializer` stores, under a renamed output key.
pub struct RenamingSerializer;

impl Serializer<Country> for RenamingSerializer {
    open spec fn spec_out(&self, c: CountryView) -> Result<Map<Seq<char>, Json>, Seq<char>> {
        Ok(map!["identifier"@ => Json::Int(c.id)])
    }

    fn serialize_into(&self, value: &Country, builder: &mut Builder) {
        builder.attr("identifier", Ok(JsonValue::Int(value.id)));
        proof {
            assert(builder.entries() =~= map!["identifier"@ => Json::Int(value@.id)]);
        }
    }
}

/// Writes the key `"id"` twice: only the second write survives, so the
/// produced object is `{"id": 2}` whatever the input.
pub struct TwiceSerializer;

impl Serializer<Country> for TwiceSerializer {
    open spec fn spec_out(&self, c: CountryView) -> Result<Map<Seq<char>, Json>, Seq<char>> {
        Ok(map!["id"@ => Json::Int(2)])
    }

    fn serialize_into(&self, value: &Country, builder: &mut Builder) {
        builder.attr("id", Ok(JsonValue::Int(1)));
        builder.attr("id", Ok(JsonValue::Int(2)));
        proof {
            assert(builder.entries() =~= map!["id"@ => Json::Int(2)]);
        }
    }
}

/// Hands the builder one field whose scalar encoding failed: the whole
/// call aborts with that failure, and no partial object is observable.
pub struct FailingSerializer;

impl Serializer<Country> for FailingSerializer {
    open spec fn spec_out(&self, c: CountryView) -> Result<Map<Seq<char>, Json>, Seq<char>> {
        Err("no JSON encoding"@)
    }

    fn serialize_into(&self, value: &Country, builder: &mut Builder) {
        builder.attr("id", Ok(JsonValue::Int(value.id)));
        builder.attr("rate", Err(EncodeError { msg: "no JSON encoding".to_owned() }));
    }
}

/// A user with friends of the same type: the self-referential record
/// of the worked example.
pub struct User {
    pub id: i64,
    pub name: String,
    pub country: Country,
    pub friends: Vec<User>,
}

/// The model of a user.
pub struct UserView {
    pub id: int,
    pub name: Seq<char>,
    pub country: CountryView,
    pub friends: Seq<UserView>,
}

/// The model of one user.
pub open spec fn user_view(u: User) -> UserView
    decreases u,
{
    UserView {
        id: u.id as int,
        name: u.name@,
        country: u.country@,
        friends: ({
            proof {
                assert(decreases_to!(u => u.friends));
                assert(decreases_to!(u.friends => u.friends@));
            }
            user_views(u.friends@)
        }),
    }
}

/// The models of a sequence of users, in order.
pub open spec fn user_views(s: Seq<User>) -> Seq<UserView>
    decreases s,
{
    if s.len() == 0 {
        Seq::empty()
    } else {
        proof {
            assert(decreases_to!(s => s.drop_last()));
            assert(decreases_to!(s => s.last()));
        }
        user_views(s.drop_last()).push(user_view(s.last()))
    }
}

impl View for User {
    type V = UserView;

    open spec fn view(&self) -> UserView {
        user_view(*self)
    }
}

/// The map a `UserSerializer` produces: scalar attributes, the nested
/// country object, and one nested object per friend, in order.
pub open spec fn user_map(u: UserView) -> Map<Seq<char>, Json>
    decreases u,
{
    map![
        "id"@ => Json::Int(u.id),
        "name"@ => Json::Str(u.name),
        "country"@ => Json::Obj(country_map(u.country)),
        "friends"@ => Json::Arr(({
            proof {
                assert(decreases_to!(u => u.friends));
            }
            user_trees(u.friends)
        })),
    ]
}

/// The value trees of a sequence of users, in order.
pub open spec fn user_trees(s: Seq<UserView>) -> Seq<Json>
    decreases s,
{
    if s.len() == 0 {
        Seq::empty()
    } else {
        proof {
            assert(decreases_to!(s => s.drop_last()));
            assert(decreases_to!(s => s.last()));
        }
        user_trees(s.drop_last()).push(Json::Obj(user_map(s.last())))
    }
}

/// Maps a user to an object with its id, name, country and friends,
/// delegating to `CountrySerializer` for the country and to itself for
/// each friend.
pub struct UserSerializer;

/// `user_views` maps the sequence elementwise.
pub proof fn lemma_user_views_index(s: Seq<User>)
    ensures
        user_views(s).len() == s.len(),
        forall|i: int| 0 <= i < s.len() ==> user_views(s)[i] == user_view(#[trigger] s[i]),
    decreases s.len(),
{
    if s.len() > 0 {
        lemma_user_views_index(s.drop_last());
        assert forall|i: int| 0 <= i < s.len() implies user_views(s)[i] == user_view(
            #[trigger] s[i],
        ) by {
            if i < s.len() - 1 {
                assert(s.drop_last()[i] == s[i]);
            } else {
                assert(s[i] == s.last());
            }
        }
    }
}

/// `user_trees` maps the sequence elementwise.
pub proof fn lemma_user_trees_index(s: Seq<UserView>)
    ensures
        user_trees(s).len() == s.len(),
        forall|i: int| 0 <= i < s.len() ==> user_trees(s)[i] == Json::Obj(
            user_map(#[trigger] s[i]),
        ),
    decreases s.len(),
{
    if s.len() > 0 {
        lemma_user_trees_index(s.drop_last());
        assert forall|i: int| 0 <= i < s.len() implies user_trees(s)[i] == Json::Obj(
            user_map(#[trigger] s[i]),
        ) by {
            if i < s.len() - 1 {
                assert(s.drop_last()[i] == s[i]);
            } else {
                assert(s[i] == s.last());
            }
        }
    }
}

impl Serializer<User> for UserSerializer {
    open spec fn spec_out(&self, u: UserView) -> Result<Map<Seq<char>, Json>, Seq<char>> {
        Ok(user_map(u))
    }

    fn serialize_into(&self, value: &User, builder: &mut Builder)
        decreases value, 0int,
    {
        builder.attr("id", Ok(JsonValue::Int(value.id)));
        builder.attr("name", Ok(JsonValue::Str(value.name.clone())));
        builder.has_one("country", &value.country, &CountrySerializer);
        let ghost fs = value.friends@;
        let ghost vs = user_views(fs);
        let mut trees: Vec<JsonValue> = Vec::new();
        let n = value.friends.len();
        let mut i: usize = 0;
        while i < n
            invariant
                n == value.friends@.len(),
                fs == value.friends@,
                i <= n,
                trees@.len() == i,
                forall|j: int| 0 <= j < i ==> (#[trigger] trees@[j])@ == Json::Obj(
                    user_map(fs[j]@),
                ),
            decreases n - i,
        {
            proof {
                assert(decreases_to!(*value => value.friends));
                assert(decreases_to!(value.friends => value.friends@));
                assert(decreases_to!(value.friends@ => value.friends@[i as int]));
            }
            let mut b = Builder::new();
            self.serialize_into(&value.friends[i], &mut b);
            let t = match b.to_value() {
                Result::Ok(j) => j,
                Result::Err(_) => {
                    proof {
                        assert(false);
                    }
                    JsonValue::Null
                },
            };
            trees.push(t);
            i += 1;
        }
        proof {
            lemma_models_of_index(trees@);
            lemma_user_views_index(fs);
            lemma_user_trees_index(vs);
            assert forall|k: int| 0 <= k < n implies models_of(trees@)[k] == user_trees(vs)[k] by {
                assert(vs[k] == user_view(fs[k]));
                assert(trees@[k]@ == Json::Obj(user_map(fs[k]@)));
                assert(fs[k]@ == user_view(fs[k]));
            }
            assert(models_of(trees@) =~= user_trees(vs));
        }
        builder.attr("friends", Ok(JsonValue::Arr(trees)));
        proof {
            assert(builder.entries() =~= user_map(value@));
        }
    }
}

} // verus!
