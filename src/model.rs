use vstd::prelude::*;

use crate::db::{Attributes, DbError, bad_timestamp_text, missing_field_text};
use crate::store::{
    Item, KeyCondition, MemoryTable, Selector, Update, item_key, keeps_key, lookup, put_items, query,
    selected, table_wf, update_base, updated, views,
};

verus! {

/// Why a stored item denotes no record.
pub enum DecodeFailure {
    /// This required field is absent, or holds another wire type.
    Missing(Seq<char>),
    /// This timestamp field holds no RFC 3339 instant.
    BadTimestamp(Seq<char>),
    /// This reaction type is not one that the record kind knows.
    UnsupportedType(Seq<char>),
}

/// The text of the error for an unknown reaction type.
pub open spec fn unsupported_type_text(kind: Seq<char>) -> Seq<char> {
    "Unsupported reaction type: "@ + kind
}

/// `e` is the error that reports `f`.
pub open spec fn reports(e: DbError, f: DecodeFailure) -> bool {
    match f {
        DecodeFailure::Missing(field) => e matches DbError::RecordInvalid(m) && m@
            == missing_field_text(field),
        DecodeFailure::BadTimestamp(field) => e matches DbError::Error(m) && m@
            == bad_timestamp_text(field),
        DecodeFailure::UnsupportedType(kind) => e matches DbError::Error(m) && m@
            == unsupported_type_text(kind),
    }
}

/// A record kind kept in the shared table: how a stored item maps to a typed record.
pub trait DynamoDbModel: Sized + View {
    /// The record that a stored item denotes, or why it denotes none.
    spec fn decode(m: Item) -> Result<Self::V, DecodeFailure>;

    /// Every item that denotes a record carries a key.
    proof fn lemma_decoded_has_key(m: Item)
        requires
            Self::decode(m) is Ok,
        ensures
            item_key(m) is Some,
    ;

    /// The record that `attributes` denote.
    fn new(attributes: &Attributes) -> (r: Result<Self, DbError>)
        ensures
            match Self::decode(attributes@) {
                Ok(v) => r matches Ok(x) && x@ == v,
                Err(f) => r matches Err(e) && reports(e, f),
            },
    ;

    /// The record stored under `(key, id)`; `None` where nothing is stored there.
    fn find(db: &MemoryTable, key: &String, id: &String) -> (r: Result<Option<Self>, DbError>)
        requires
            db.wf(),
        ensures
            match lookup(db@, (key@, id@)) {
                None => r matches Ok(None),
                Some(m) => match Self::decode(m) {
                    Ok(v) => r matches Ok(Some(x)) && x@ == v,
                    Err(f) => r matches Err(e) && reports(e, f),
                },
            },
    {
        match db.get_item(key, id) {
            None => Ok(None),
            Some(attributes) => match Self::new(&attributes) {
                Ok(x) => Ok(Some(x)),
                Err(e) => Err(e),
            },
        }
    }

    /// Writes `attributes` under their key, replacing what was there, and returns the record they
    /// denote. Attributes that denote no record are refused with the error that says why, and
    /// nothing is written.
    fn create(db: &mut MemoryTable, attributes: Attributes) -> (r: Result<Self, DbError>)
        requires
            old(db).wf(),
        ensures
            final(db).wf(),
            final(db).spec_page_size() == old(db).spec_page_size(),
            final(db).spec_unprocessed_percent() == old(db).spec_unprocessed_percent(),
            match Self::decode(attributes@) {
                Ok(v) => r matches Ok(x) && x@ == v && final(db)@ == put_items(
                    old(db)@,
                    attributes@,
                ),
                Err(f) => r matches Err(e) && reports(e, f) && final(db)@ == old(db)@,
            },
    {
        match Self::new(&attributes) {
            Ok(x) => {
                proof {
                    Self::lemma_decoded_has_key(attributes@);
                }
                let _ = db.put_item(attributes);
                Ok(x)
            },
            Err(e) => Err(e),
        }
    }

    /// Applies `changes` to the item under `(key, id)` and returns the record it now denotes.
    fn update(
        db: &mut MemoryTable,
        key: &String,
        id: &String,
        changes: &Update,
    ) -> (r: Result<Self, DbError>)
        requires
            old(db).wf(),
            keeps_key(changes),
        ensures
            final(db).wf(),
            final(db).spec_page_size() == old(db).spec_page_size(),
            final(db).spec_unprocessed_percent() == old(db).spec_unprocessed_percent(),
            final(db)@ == put_items(old(db)@, updated(update_base(old(db)@, (key@, id@)), changes)),
            match Self::decode(updated(update_base(old(db)@, (key@, id@)), changes)) {
                Ok(v) => r matches Ok(x) && x@ == v,
                Err(f) => r matches Err(e) && reports(e, f),
            },
    {
        let attributes = db.update_item(key, id, changes);
        Self::new(&attributes)
    }
}

/// A record kind whose sort keys all begin with one prefix, so that a prefix query lists them.
pub trait DynamoDbListableModel: DynamoDbModel {
    spec fn spec_id_prefix() -> Seq<char>;

    fn id_prefix() -> (r: String)
        ensures
            r@ == Self::spec_id_prefix(),
    ;

    /// Every record of this kind in partition `commentable_id`, in store order. Fails where one of
    /// them does not decode.
    fn list(db: &MemoryTable, commentable_id: &String) -> (r: Result<
        Vec<Self>,
        DbError,
    >)
        requires
            db.wf(),
        ensures
            ({
                let s = selected(db@, Selector::IdPrefix(commentable_id@, Self::spec_id_prefix()));
                match r {
                    Ok(v) => v@.len() == s.len() && forall|i: int|
                        0 <= i < s.len() ==> Self::decode(#[trigger] s[i]) == Ok::<Self::V, DecodeFailure>(
                            v@[i]@,
                        ),
                    Err(e) => exists|i: int|
                        0 <= i < s.len() && ((#[trigger] Self::decode(s[i])) matches Err(f) && reports(
                            e,
                            f,
                        )),
                }
            }),
    {
        let condition = KeyCondition::IdPrefix {
            primary_key: commentable_id.clone(),
            prefix: Self::id_prefix(),
        };
        let items = query(db, &condition);
        let mut records: Vec<Self> = Vec::new();
        let mut i: usize = 0;
        while i < items.len()
            invariant
                i <= items@.len(),
                views(items@) == selected(db@, condition@),
                condition@ == Selector::IdPrefix(commentable_id@, Self::spec_id_prefix()),
                records@.len() == i,
                forall|j: int|
                    0 <= j < i ==> Self::decode(#[trigger] views(items@)[j]) == Ok::<
                        Self::V,
                        DecodeFailure,
                    >(records@[j]@),
            decreases items@.len() - i,
        {
            proof {
                assert(views(items@)[i as int] == items@[i as int]@);
            }
            match Self::new(&items[i]) {
                Ok(x) => {
                    records.push(x);
                },
                Err(e) => {
                    return Err(e);
                },
            }
            i = i + 1;
        }
        Ok(records)
    }
}

/// Writing a record and then looking up its key finds what was written, so the record found
/// equals the record that the write returned, field for field.
pub proof fn lemma_create_then_find<T: DynamoDbModel>(items: Seq<Item>, m: Item)
    requires
        table_wf(items),
        T::decode(m) is Ok,
    ensures
        lookup(put_items(items, m), item_key(m)->Some_0) == Some(m),
        T::decode(lookup(put_items(items, m), item_key(m)->Some_0)->Some_0) == T::decode(m),
{
    T::lemma_decoded_has_key(m);
    let key = item_key(m)->Some_0;
    let after = put_items(items, m);
    if crate::store::has_key(items, key) {
        let i = crate::store::key_index(items, key);
        assert(after[i] == m);
        assert(crate::store::has_key(after, key));
        let j = crate::store::key_index(after, key);
        if j != i {
            assert(after[j] == items[j]);
            assert(item_key(items[j]) != item_key(items[i]));
        }
    } else {
        let i = items.len() as int;
        assert(after[i] == m);
        assert(crate::store::has_key(after, key));
        let j = crate::store::key_index(after, key);
        if j != i {
            assert(after[j] == items[j]);
            assert(!crate::store::has_key(items, key) ==> item_key(items[j]) != Some(key));
        }
    }
}

} // verus!
