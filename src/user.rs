use vstd::prelude::*;

use crate::db::{Attributes, DbError, Timestamp, WireValue, wire_string, wire_timestamp};
use crate::model::{DecodeFailure, DynamoDbModel, reports};
use crate::store::{Item, MemoryTable, lookup};

verus! {

pub type UserId = String;

pub type AuthToken = String;

/// A signed-in user. Its partition key is its own id.
pub struct User {
    pub primary_key: UserId,
    pub id: UserId,
    pub email: String,
    pub name: String,
    pub picture_url: String,
    pub auth_token: AuthToken,
    pub created_at: Timestamp,
}

pub struct UserView {
    pub primary_key: Seq<char>,
    pub id: Seq<char>,
    pub email: Seq<char>,
    pub name: Seq<char>,
    pub picture_url: Seq<char>,
    pub auth_token: Seq<char>,
    pub created_at: Timestamp,
}

impl View for User {
    type V = UserView;

    open spec fn view(&self) -> UserView {
        UserView {
            primary_key: self.primary_key@,
            id: self.id@,
            email: self.email@,
            name: self.name@,
            picture_url: self.picture_url@,
            auth_token: self.auth_token@,
            created_at: self.created_at,
        }
    }
}

/// The user that a stored item denotes; every field is required.
pub open spec fn user_of(m: Item) -> Result<UserView, DecodeFailure> {
    match wire_string(m, "primary_key"@) {
        None => Err(DecodeFailure::Missing("primary_key"@)),
        Some(primary_key) => match wire_string(m, "id"@) {
            None => Err(DecodeFailure::Missing("id"@)),
            Some(id) => match wire_string(m, "email"@) {
                None => Err(DecodeFailure::Missing("email"@)),
                Some(email) => match wire_string(m, "name"@) {
                    None => Err(DecodeFailure::Missing("name"@)),
                    Some(name) => match wire_string(m, "auth_token"@) {
                        None => Err(DecodeFailure::Missing("auth_token"@)),
                        Some(auth_token) => match wire_string(m, "picture_url"@) {
                            None => Err(DecodeFailure::Missing("picture_url"@)),
                            Some(picture_url) => match wire_timestamp(m, "created_at"@) {
                                Err(true) => Err(DecodeFailure::Missing("created_at"@)),
                                Err(false) => Err(DecodeFailure::BadTimestamp("created_at"@)),
                                Ok(created_at) => Ok(
                                    UserView {
                                        primary_key,
                                        id,
                                        email,
                                        name,
                                        picture_url,
                                        auth_token,
                                        created_at,
                                    },
                                ),
                            },
                        },
                    },
                },
            },
        },
    }
}

impl DynamoDbModel for User {
    open spec fn decode(m: Item) -> Result<UserView, DecodeFailure> {
        user_of(m)
    }

    proof fn lemma_decoded_has_key(m: Item) {
    }

    fn new(attributes: &Attributes) -> (r: Result<User, DbError>) {
        let primary_key = match attributes.string("primary_key") {
            Ok(s) => s,
            Err(e) => return Err(e),
        };
        let id = match attributes.string("id") {
            Ok(s) => s,
            Err(e) => return Err(e),
        };
        let email = match attributes.string("email") {
            Ok(s) => s,
            Err(e) => return Err(e),
        };
        let name = match attributes.string("name") {
            Ok(s) => s,
            Err(e) => return Err(e),
        };
        let auth_token = match attributes.string("auth_token") {
            Ok(s) => s,
            Err(e) => return Err(e),
        };
        let picture_url = match attributes.string("picture_url") {
            Ok(s) => s,
            Err(e) => return Err(e),
        };
        let created_at = match attributes.timestamp("created_at") {
            Ok(t) => t,
            Err(e) => return Err(e),
        };
        Ok(User { primary_key, id, email, name, picture_url, auth_token, created_at })
    }
}

/// The item written for a new user, keyed by its id in both parts.
pub open spec fn user_item(
    id: Seq<char>,
    email: Seq<char>,
    name: Seq<char>,
    picture_url: Seq<char>,
    auth_token: Seq<char>,
    created_at: Seq<char>,
) -> Item {
    Map::empty().insert("primary_key"@, WireValue::S(id)).insert("id"@, WireValue::S(id)).insert(
        "email"@,
        WireValue::S(email),
    ).insert("name"@, WireValue::S(name)).insert("picture_url"@, WireValue::S(picture_url)).insert(
        "auth_token"@,
        WireValue::S(auth_token),
    ).insert("created_at"@, WireValue::S(created_at))
}

/// How many keys one batch read takes at most.
pub const BATCH_GET_LIMIT: usize = 100;

/// The concatenation of a list of lists.
pub open spec fn flatten(chunks: Seq<Vec<String>>) -> Seq<String>
    decreases chunks.len(),
{
    if chunks.len() == 0 {
        Seq::empty()
    } else {
        flatten(chunks.drop_last()) + chunks.last()@
    }
}

/// The items stored under `(id, id)` for each id of `ids` that has one, in the order of `ids`.
pub open spec fn found_users(items: Seq<Item>, ids: Seq<String>) -> Seq<Item>
    decreases ids.len(),
{
    if ids.len() == 0 {
        Seq::empty()
    } else {
        let id = ids.last()@;
        match lookup(items, (id, id)) {
            Some(m) => found_users(items, ids.drop_last()).push(m),
            None => found_users(items, ids.drop_last()),
        }
    }
}

/// `id` is among `ids`, by content.
pub open spec fn names_id(ids: Seq<String>, id: Seq<char>) -> bool {
    exists|i: int| 0 <= i < ids.len() && (#[trigger] ids[i])@ == id
}

/// `ids` with each id kept at its first occurrence only.
pub open spec fn distinct(ids: Seq<String>) -> Seq<String>
    decreases ids.len(),
{
    if ids.len() == 0 {
        Seq::empty()
    } else {
        let rest = distinct(ids.drop_last());
        if names_id(rest, ids.last()@) {
            rest
        } else {
            rest.push(ids.last())
        }
    }
}

/// `ids` with repeats dropped, first occurrences kept in order: a batch read may not name one
/// key twice.
pub fn distinct_ids(ids: &Vec<String>) -> (r: Vec<String>)
    ensures
        r@ == distinct(ids@),
{
    let mut out: Vec<String> = Vec::new();
    let mut i: usize = 0;
    while i < ids.len()
        invariant
            i <= ids@.len(),
            out@ == distinct(ids@.take(i as int)),
        decreases ids@.len() - i,
    {
        proof {
            assert(ids@.take(i + 1).drop_last() =~= ids@.take(i as int));
            assert(ids@.take(i + 1).last() == ids@[i as int]);
        }
        let mut seen = false;
        let mut j: usize = 0;
        while j < out.len()
            invariant
                i < ids@.len(),
                j <= out@.len(),
                seen == exists|k: int| 0 <= k < j && (#[trigger] out@[k])@ == ids@[i as int]@,
            decreases out@.len() - j,
        {
            if out[j] == ids[i] {
                seen = true;
            }
            j = j + 1;
        }
        if !seen {
            out.push(ids[i].clone());
        }
        i = i + 1;
    }
    proof {
        assert(ids@.take(i as int) =~= ids@);
    }
    out
}

impl User {
    /// The attributes of a new user.
    pub fn attributes_for(
        id: String,
        email: String,
        name: String,
        picture_url: String,
        auth_token: String,
        created_at: String,
    ) -> (r: Attributes)
        ensures
            r@ == user_item(id@, email@, name@, picture_url@, auth_token@, created_at@),
    {
        let mut a = Attributes::new();
        a.insert_string("primary_key", id.clone());
        a.insert_string("id", id);
        a.insert_string("email", email);
        a.insert_string("name", name);
        a.insert_string("picture_url", picture_url);
        a.insert_string("auth_token", auth_token);
        a.insert_string("created_at", created_at);
        a
    }

    /// `ids` cut, in order, into groups of at most `BATCH_GET_LIMIT`, none empty.
    pub fn batch_get_chunks(ids: &Vec<String>) -> (r: Vec<Vec<String>>)
        ensures
            flatten(r@) == ids@,
            forall|i: int|
                0 <= i < r@.len() ==> 0 < (#[trigger] r@[i])@.len() <= BATCH_GET_LIMIT,
    {
        let mut chunks: Vec<Vec<String>> = Vec::new();
        let mut current: Vec<String> = Vec::new();
        let mut i: usize = 0;
        while i < ids.len()
            invariant
                i <= ids@.len(),
                flatten(chunks@) + current@ == ids@.take(i as int),
                current@.len() < BATCH_GET_LIMIT,
                forall|j: int|
                    0 <= j < chunks@.len() ==> 0 < (#[trigger] chunks@[j])@.len()
                        <= BATCH_GET_LIMIT,
            decreases ids@.len() - i,
        {
            current.push(ids[i].clone());
            proof {
                assert(ids@.take(i + 1) =~= ids@.take(i as int).push(ids@[i as int]));
                assert(flatten(chunks@) + current@ =~= ids@.take(i + 1));
            }
            if current.len() == BATCH_GET_LIMIT {
                let ghost before = chunks@;
                chunks.push(current);
                current = Vec::new();
                proof {
                    assert(chunks@.drop_last() =~= before);
                    assert(flatten(chunks@) + current@ =~= ids@.take(i + 1));
                }
            }
            i = i + 1;
        }
        if current.len() > 0 {
            let ghost before = chunks@;
            chunks.push(current);
            proof {
                assert(chunks@.drop_last() =~= before);
            }
        }
        proof {
            assert(ids@.take(i as int) =~= ids@);
            assert(flatten(chunks@) =~= ids@);
        }
        chunks
    }

    /// The users whose ids are listed, in that order; an id with no user is left out, not an
    /// error. Fails where a stored user does not decode.
    pub fn batch_get(db: &MemoryTable, ids: &Vec<String>) -> (r: Result<Vec<User>, DbError>)
        requires
            db.wf(),
        ensures
            ({
                let s = found_users(db@, ids@);
                match r {
                    Ok(v) => v@.len() == s.len() && forall|i: int|
                        0 <= i < s.len() ==> user_of(#[trigger] s[i]) == Ok::<
                            UserView,
                            DecodeFailure,
                        >(v@[i]@),
                    Err(e) => exists|i: int|
                        0 <= i < s.len() && ((#[trigger] user_of(s[i])) matches Err(f) && reports(
                            e,
                            f,
                        )),
                }
            }),
    {
        let mut users: Vec<User> = Vec::new();
        let mut i: usize = 0;
        while i < ids.len()
            invariant
                db.wf(),
                i <= ids@.len(),
                users@.len() == found_users(db@, ids@.take(i as int)).len(),
                forall|j: int|
                    0 <= j < users@.len() ==> user_of(
                        #[trigger] found_users(db@, ids@.take(i as int))[j],
                    ) == Ok::<UserView, DecodeFailure>(users@[j]@),
            decreases ids@.len() - i,
        {
            proof {
                assert(ids@.take(i + 1).drop_last() =~= ids@.take(i as int));
            }
            let ghost before = found_users(db@, ids@.take(i as int));
            match db.get_item(&ids[i], &ids[i]) {
                Some(attributes) => match User::new(&attributes) {
                    Ok(user) => {
                        users.push(user);
                        proof {
                            assert forall|j: int| 0 <= j < users@.len() implies user_of(
                                #[trigger] found_users(db@, ids@.take(i + 1))[j],
                            ) == Ok::<UserView, DecodeFailure>(users@[j]@) by {
                                if j < before.len() {
                                    assert(found_users(db@, ids@.take(i + 1))[j] == before[j]);
                                }
                            }
                        }
                    },
                    Err(e) => {
                        proof {
                            let s = found_users(db@, ids@);
                            assert(ids@.take(i + 1).last() == ids@[i as int]);
                            assert(found_users(db@, ids@.take(i + 1)) == before.push(attributes@));
                            lemma_found_users_prefix(db@, ids@, i as int + 1);
                            assert(found_users(db@, ids@.take(i + 1))[before.len() as int] == attributes@);
                            assert(s[before.len() as int] == attributes@);
                        }
                        return Err(e);
                    },
                },
                None => {},
            }
            i = i + 1;
        }
        proof {
            assert(ids@.take(i as int) =~= ids@);
        }
        Ok(users)
    }
}

/// The users found for a prefix of the ids begin the users found for all of them.
proof fn lemma_found_users_prefix(items: Seq<Item>, ids: Seq<String>, k: int)
    requires
        0 <= k <= ids.len(),
    ensures
        found_users(items, ids.take(k)).len() <= found_users(items, ids).len(),
        forall|j: int|
            0 <= j < found_users(items, ids.take(k)).len() ==> #[trigger] found_users(
                items,
                ids.take(k),
            )[j] == found_users(items, ids)[j],
    decreases ids.len() - k,
{
    if k < ids.len() {
        lemma_found_users_prefix(items, ids, k + 1);
        assert(ids.take(k + 1).drop_last() =~= ids.take(k));
        assert(ids.take(k + 1).last() == ids[k]);
        let a = found_users(items, ids.take(k));
        let b = found_users(items, ids.take(k + 1));
        assert forall|j: int| 0 <= j < a.len() implies #[trigger] a[j] == found_users(items, ids)[j] by {
            assert(a[j] == b[j]);
        }
    } else {
        assert(ids.take(k) =~= ids);
    }
}

} // verus!
