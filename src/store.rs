use vstd::prelude::*;

use crate::db::{AttributeValue, Attributes, DbError, WireValue, entries_map, wire_string};

verus! {

/// The content of one stored item.
pub type Item = Map<Seq<char>, WireValue>;

/// The key of an item: its partition key and its sort key, both strings.
pub open spec fn item_key(m: Item) -> Option<(Seq<char>, Seq<char>)> {
    match (wire_string(m, "primary_key"@), wire_string(m, "id"@)) {
        (Some(pk), Some(id)) => Some((pk, id)),
        _ => None,
    }
}

/// Every item has a key, and no two items share one.
pub open spec fn table_wf(items: Seq<Item>) -> bool {
    &&& forall|i: int| 0 <= i < items.len() ==> (#[trigger] item_key(items[i])) is Some
    &&& forall|i: int, j: int|
        0 <= i < items.len() && 0 <= j < items.len() && i != j ==> item_key(#[trigger] items[i])
            != item_key(#[trigger] items[j])
}

/// Some item is stored under `key`.
pub open spec fn has_key(items: Seq<Item>, key: (Seq<char>, Seq<char>)) -> bool {
    exists|i: int| 0 <= i < items.len() && item_key(#[trigger] items[i]) == Some(key)
}

/// The position of the item stored under `key`.
pub open spec fn key_index(items: Seq<Item>, key: (Seq<char>, Seq<char>)) -> int {
    choose|i: int| 0 <= i < items.len() && item_key(#[trigger] items[i]) == Some(key)
}

/// The item stored under `key`.
pub open spec fn lookup(items: Seq<Item>, key: (Seq<char>, Seq<char>)) -> Option<Item> {
    if has_key(items, key) {
        Some(items[key_index(items, key)])
    } else {
        None
    }
}

/// The items after an unconditional put of `m`: it replaces the item under its key, or joins
/// the table.
pub open spec fn put_items(items: Seq<Item>, m: Item) -> Seq<Item> {
    let key = item_key(m)->Some_0;
    if has_key(items, key) {
        items.update(key_index(items, key), m)
    } else {
        items.push(m)
    }
}

/// The items after deleting the one under `key`, if any.
pub open spec fn delete_items(items: Seq<Item>, key: (Seq<char>, Seq<char>)) -> Seq<Item> {
    if has_key(items, key) {
        items.remove(key_index(items, key))
    } else {
        items
    }
}

/// Which items a query selects.
pub enum KeyCondition {
    /// The items of partition `primary_key` whose sort key begins with `prefix`.
    IdPrefix { primary_key: String, prefix: String },
    /// The items of partition `primary_key` whose attribute `attribute` holds the string
    /// `value`, as a secondary index on that attribute finds them.
    Index { primary_key: String, attribute: String, value: String },
}

/// What a query selects, as values.
pub enum Selector {
    /// Partition, and the prefix of the sort key.
    IdPrefix(Seq<char>, Seq<char>),
    /// Partition, attribute name, and the string that the attribute holds.
    Index(Seq<char>, Seq<char>, Seq<char>),
}

impl View for KeyCondition {
    type V = Selector;

    open spec fn view(&self) -> Selector {
        match self {
            KeyCondition::IdPrefix { primary_key, prefix } => Selector::IdPrefix(
                primary_key@,
                prefix@,
            ),
            KeyCondition::Index { primary_key, attribute, value } => Selector::Index(
                primary_key@,
                attribute@,
                value@,
            ),
        }
    }
}

/// `m` is selected by `c`.
pub open spec fn selects(c: Selector, m: Item) -> bool {
    match c {
        Selector::IdPrefix(primary_key, prefix) => wire_string(m, "primary_key"@) == Some(
            primary_key,
        ) && match wire_string(m, "id"@) {
            Some(id) => prefix.is_prefix_of(id),
            None => false,
        },
        Selector::Index(primary_key, attribute, value) => wire_string(m, "primary_key"@) == Some(
            primary_key,
        ) && wire_string(m, attribute) == Some(value),
    }
}

/// The items of `items` that `c` selects, in their order.
pub open spec fn selected(items: Seq<Item>, c: Selector) -> Seq<Item>
    decreases items.len(),
{
    if items.len() == 0 {
        Seq::empty()
    } else if selects(c, items.last()) {
        selected(items.drop_last(), c).push(items.last())
    } else {
        selected(items.drop_last(), c)
    }
}

/// Selection distributes over concatenation.
pub proof fn lemma_selected_add(a: Seq<Item>, b: Seq<Item>, c: Selector)
    ensures
        selected(a + b, c) == selected(a, c) + selected(b, c),
    decreases b.len(),
{
    if b.len() == 0 {
        assert(a + b =~= a);
        assert(selected(a, c) + selected(b, c) =~= selected(a, c));
    } else {
        lemma_selected_add(a, b.drop_last(), c);
        assert((a + b).drop_last() =~= a + b.drop_last());
        assert((a + b).last() == b.last());
        if selects(c, b.last()) {
            assert(selected(a, c) + selected(b.drop_last(), c).push(b.last()) =~= (selected(a, c)
                + selected(b.drop_last(), c)).push(b.last()));
        }
    }
}

/// The maps that a list of attribute sets denotes.
pub open spec fn views(s: Seq<Attributes>) -> Seq<Item> {
    s.map_values(|a: Attributes| a@)
}

/// `prefix` begins `s`.
pub fn starts_with(s: &str, prefix: &str) -> (r: bool)
    ensures
        r == prefix@.is_prefix_of(s@),
{
    let n = s.unicode_len();
    let k = prefix.unicode_len();
    if k > n {
        return false;
    }
    let mut i: usize = 0;
    while i < k
        invariant
            i <= k <= n,
            n == s@.len(),
            k == prefix@.len(),
            forall|j: int| 0 <= j < i ==> prefix@[j] == s@[j],
        decreases k - i,
    {
        if prefix.get_char(i) != s.get_char(i) {
            return false;
        }
        i = i + 1;
    }
    proof {
        assert(prefix@ =~= s@.subrange(0, k as int));
    }
    true
}

/// A store of keyed items held in memory. It answers queries a page at a time and leaves part
/// of each batch write unprocessed, as the remote store may: it stands in for that store
/// wherever the same logic is to run without one.
pub struct MemoryTable {
    items: Vec<Attributes>,
    page_size: usize,
    unprocessed_percent: usize,
}

impl View for MemoryTable {
    type V = Seq<Item>;

    closed spec fn view(&self) -> Seq<Item> {
        views(self.items@)
    }
}

impl MemoryTable {
    /// The table's own invariant: keyed items, pages of at least one item, a share of at most
    /// all.
    pub closed spec fn wf(&self) -> bool {
        &&& table_wf(self@)
        &&& self.page_size >= 1
        &&& self.unprocessed_percent <= 100
    }

    /// How many items a query page holds at most.
    pub closed spec fn spec_page_size(&self) -> nat {
        self.page_size as nat
    }

    /// Which share, in percent, of each batch write the table leaves unprocessed.
    pub closed spec fn spec_unprocessed_percent(&self) -> nat {
        self.unprocessed_percent as nat
    }

    /// What the invariant says of the table's content and settings.
    pub proof fn lemma_wf(&self)
        requires
            self.wf(),
        ensures
            table_wf(self@),
            self.spec_page_size() >= 1,
            self.spec_unprocessed_percent() <= 100,
    {
    }

    /// An empty table answering in pages of `page_size` items, and leaving `unprocessed_percent`
    /// percent (rounded down) of each batch write unprocessed.
    pub fn new(page_size: usize, unprocessed_percent: usize) -> (r: MemoryTable)
        requires
            page_size >= 1,
            unprocessed_percent <= 100,
        ensures
            r.wf(),
            r@ == Seq::<Item>::empty(),
            r.spec_page_size() == page_size,
            r.spec_unprocessed_percent() == unprocessed_percent,
    {
        let r = MemoryTable { items: Vec::new(), page_size, unprocessed_percent };
        proof {
            assert(r@ =~= Seq::<Item>::empty());
        }
        r
    }

    /// The position of the item stored under `(primary_key, id)`.
    fn position(&self, primary_key: &String, id: &String) -> (r: Option<usize>)
        requires
            self.wf(),
        ensures
            match r {
                Some(i) => i < self@.len() && item_key(self@[i as int]) == Some(
                    (primary_key@, id@),
                ) && key_index(self@, (primary_key@, id@)) == i,
                None => !has_key(self@, (primary_key@, id@)),
            },
    {
        let mut i: usize = 0;
        while i < self.items.len()
            invariant
                self.wf(),
                i <= self.items@.len(),
                forall|j: int|
                    0 <= j < i ==> item_key(#[trigger] self@[j]) != Some((primary_key@, id@)),
            decreases self.items@.len() - i,
        {
            let pk = self.items[i].string("primary_key");
            let sk = self.items[i].string("id");
            proof {
                assert(self@[i as int] == self.items@[i as int]@);
            }
            match (pk, sk) {
                (Ok(pk), Ok(sk)) => {
                    if pk == *primary_key && sk == *id {
                        proof {
                            let key = (primary_key@, id@);
                            assert(has_key(self@, key));
                            let k = key_index(self@, key);
                            if k != i {
                                assert(item_key(self@[k]) != item_key(self@[i as int]));
                            }
                        }
                        return Some(i);
                    }
                },
                _ => {},
            }
            i = i + 1;
        }
        None
    }

    /// A copy of the item stored under `(primary_key, id)`.
    pub fn get_item(&self, primary_key: &String, id: &String) -> (r: Option<Attributes>)
        requires
            self.wf(),
        ensures
            match r {
                Some(a) => lookup(self@, (primary_key@, id@)) == Some(a@),
                None => lookup(self@, (primary_key@, id@)) is None,
            },
    {
        match self.position(primary_key, id) {
            Some(i) => Some(self.items[i].duplicate()),
            None => None,
        }
    }

    /// Writes `item` under its key, replacing what was there. An item without a string
    /// `primary_key` and `id` is refused as `RecordInvalid`, and nothing changes.
    pub fn put_item(&mut self, item: Attributes) -> (r: Result<(), DbError>)
        requires
            old(self).wf(),
        ensures
            final(self).wf(),
            final(self).spec_page_size() == old(self).spec_page_size(),
            final(self).spec_unprocessed_percent() == old(self).spec_unprocessed_percent(),
            (r is Ok) == (item_key(item@) is Some),
            r is Ok ==> final(self)@ == put_items(old(self)@, item@),
            r is Err ==> final(self)@ == old(self)@ && r matches Err(DbError::RecordInvalid(_)),
    {
        let pk = item.string("primary_key");
        let sk = item.string("id");
        match (pk, sk) {
            (Ok(pk), Ok(sk)) => {
                let ghost old_items = self@;
                match self.position(&pk, &sk) {
                    Some(i) => {
                        self.items.set(i, item);
                        proof {
                            assert(self@ =~= old_items.update(i as int, item@));
                        }
                    },
                    None => {
                        self.items.push(item);
                        proof {
                            assert(self@ =~= old_items.push(item@));
                        }
                    },
                }
                Ok(())
            },
            (Err(e), _) => Err(e),
            (_, Err(e)) => Err(e),
        }
    }

    /// Writes `item` only where nothing is stored under its key; otherwise `Conflict`, and
    /// nothing changes. An item without a key is refused as `RecordInvalid`.
    pub fn put_new_item(&mut self, item: Attributes) -> (r: Result<(), DbError>)
        requires
            old(self).wf(),
        ensures
            final(self).wf(),
            final(self).spec_page_size() == old(self).spec_page_size(),
            final(self).spec_unprocessed_percent() == old(self).spec_unprocessed_percent(),
            (r is Ok) == (item_key(item@) matches Some(k) && !has_key(old(self)@, k)),
            r is Ok ==> final(self)@ == old(self)@.push(item@),
            r is Err ==> final(self)@ == old(self)@,
            (item_key(item@) matches Some(k) && has_key(old(self)@, k)) ==> r matches Err(
                DbError::Conflict(_),
            ),
            item_key(item@) is None ==> r matches Err(DbError::RecordInvalid(_)),
    {
        let pk = item.string("primary_key");
        let sk = item.string("id");
        match (pk, sk) {
            (Ok(pk), Ok(sk)) => {
                match self.position(&pk, &sk) {
                    Some(_) => Err(
                        DbError::Conflict(String::from_str("An item with this key exists.")),
                    ),
                    None => {
                        let ghost old_items = self@;
                        self.items.push(item);
                        proof {
                            assert(self@ =~= old_items.push(item@));
                        }
                        Ok(())
                    },
                }
            },
            (Err(e), _) => Err(e),
            (_, Err(e)) => Err(e),
        }
    }

    /// Deletes the item stored under `(primary_key, id)`; deleting an absent item is no error.
    pub fn delete_item(&mut self, primary_key: &String, id: &String)
        requires
            old(self).wf(),
        ensures
            final(self).wf(),
            final(self).spec_page_size() == old(self).spec_page_size(),
            final(self).spec_unprocessed_percent() == old(self).spec_unprocessed_percent(),
            final(self)@ == delete_items(old(self)@, (primary_key@, id@)),
    {
        let ghost old_items = self@;
        match self.position(primary_key, id) {
            Some(i) => {
                self.items.remove(i);
                proof {
                    assert(self@ =~= old_items.remove(i as int));
                    assert forall|a: int, b: int|
                        0 <= a < self@.len() && 0 <= b < self@.len() && a != b implies item_key(
                            #[trigger] self@[a],
                        ) != item_key(#[trigger] self@[b]) by {
                        let a2 = if a < i {
                            a
                        } else {
                            a + 1
                        };
                        let b2 = if b < i {
                            b
                        } else {
                            b + 1
                        };
                        assert(self@[a] == old_items[a2]);
                        assert(self@[b] == old_items[b2]);
                    }
                    assert forall|a: int| 0 <= a < self@.len() implies (#[trigger] item_key(
                        self@[a],
                    )) is Some by {
                        let a2 = if a < i {
                            a
                        } else {
                            a + 1
                        };
                        assert(self@[a] == old_items[a2]);
                    }
                }
            },
            None => {},
        }
    }

    /// One page of a query, from position `start` on: the selected items among those it read,
    /// and the position to resume from where it stopped early with a full page.
    pub fn query_page(&self, condition: &KeyCondition, start: usize) -> (r: (
        Vec<Attributes>,
        Option<usize>,
    ))
        requires
            self.wf(),
            start <= self@.len(),
        ensures
            r.0@.len() <= self.spec_page_size(),
            match r.1 {
                Some(next) => start < next <= self@.len() && views(r.0@) == selected(
                    self@.subrange(start as int, next as int),
                    condition@,
                ),
                None => views(r.0@) == selected(
                    self@.subrange(start as int, self@.len() as int),
                    condition@,
                ),
            },
    {
        let mut page: Vec<Attributes> = Vec::new();
        let mut i: usize = start;
        while i < self.items.len() && page.len() < self.page_size
            invariant
                self.wf(),
                start <= i <= self.items@.len(),
                page@.len() <= self.page_size,
                page@.len() > 0 ==> i > start,
                views(page@) == selected(self@.subrange(start as int, i as int), condition@),
            decreases self.items@.len() - i,
        {
            proof {
                assert(self@.subrange(start as int, i + 1).drop_last() =~= self@.subrange(
                    start as int,
                    i as int,
                ));
                assert(self@[i as int] == self.items@[i as int]@);
            }
            if self.selects_item(condition, i) {
                let ghost before = page@;
                page.push(self.items[i].duplicate());
                proof {
                    assert(views(page@) =~= views(before).push(self@[i as int]));
                }
            }
            i = i + 1;
        }
        if i < self.items.len() {
            (page, Some(i))
        } else {
            (page, None)
        }
    }

    /// Whether `condition` selects the item at position `i`.
    fn selects_item(&self, condition: &KeyCondition, i: usize) -> (r: bool)
        requires
            i < self@.len(),
        ensures
            r == selects(condition@, self@[i as int]),
    {
        let item = &self.items[i];
        proof {
            assert(self@[i as int] == item@);
        }
        let in_partition = |pk: &String| -> (b: bool)
            ensures
                b == (wire_string(item@, "primary_key"@) == Some(pk@)),
            {
                match item.string("primary_key") {
                    Ok(p) => p == *pk,
                    Err(_) => false,
                }
            };
        match condition {
            KeyCondition::IdPrefix { primary_key, prefix } => {
                if !in_partition(primary_key) {
                    return false;
                }
                match item.string("id") {
                    Ok(id) => starts_with(id.as_str(), prefix.as_str()),
                    Err(_) => false,
                }
            },
            KeyCondition::Index { primary_key, attribute, value } => {
                if !in_partition(primary_key) {
                    return false;
                }
                match item.string(attribute.as_str()) {
                    Ok(v) => v == *value,
                    Err(_) => false,
                }
            },
        }
    }
}

/// What a paginated query has gathered so far. The store answers a query a page at a time,
/// with a continuation token while more may follow.
pub struct Pagination {
    pub results: Vec<Attributes>,
    pub finished: bool,
}

impl Pagination {
    pub fn new() -> (r: Pagination)
        ensures
            r.results@.len() == 0,
            !r.finished,
    {
        Pagination { results: Vec::new(), finished: false }
    }

    /// Takes in one page and its continuation token; hands back the token to issue the same
    /// query with next, or `None` once the store reported no further page.
    pub fn record_page<T>(&mut self, page: Vec<Attributes>, token: Option<T>) -> (next: Option<T>)
        ensures
            final(self).results@ == old(self).results@ + page@,
            final(self).finished == (token is None),
            next == token,
    {
        let mut page = page;
        self.results.append(&mut page);
        self.finished = token.is_none();
        token
    }
}

/// All items that `condition` selects, gathered page by page until the store reports no
/// further page: none is lost and none is repeated, whatever the page size.
pub fn query(table: &MemoryTable, condition: &KeyCondition) -> (r: Vec<Attributes>)
    requires
        table.wf(),
    ensures
        views(r@) == selected(table@, condition@),
{
    let mut pages = Pagination::new();
    let mut start: usize = 0;
    let ghost len = table@.len();
    loop
        invariant_except_break
            !pages.finished,
            views(pages.results@) == selected(table@.subrange(0, start as int), condition@),
        invariant
            table.wf(),
            len == table@.len(),
            start <= len,
        ensures
            pages.finished,
            views(pages.results@) == selected(table@, condition@),
        decreases len - start,
    {
        let (page, token) = table.query_page(condition, start);
        let ghost before = pages.results@;
        let ghost stop = match token {
            Some(n) => n as int,
            None => len as int,
        };
        let next = pages.record_page(page, token);
        proof {
            assert(views(pages.results@) =~= views(before) + views(page@));
            lemma_selected_add(table@.subrange(0, start as int), table@.subrange(start as int, stop), condition@);
            assert(table@.subrange(0, start as int) + table@.subrange(start as int, stop) =~= table@.subrange(0, stop));
        }
        match next {
            Some(n) => {
                start = n;
            },
            None => {
                proof {
                    assert(table@.subrange(0, len as int) =~= table@);
                }
                break;
            },
        }
    }
    pages.results
}

/// The keys of a list of key pairs.
pub open spec fn key_views(keys: Seq<(String, String)>) -> Seq<(Seq<char>, Seq<char>)> {
    keys.map_values(|k: (String, String)| (k.0@, k.1@))
}

/// Deleting under one key leaves every other key as it was, and nothing under that key.
pub proof fn lemma_delete_lookup(
    items: Seq<Item>,
    key: (Seq<char>, Seq<char>),
    other: (Seq<char>, Seq<char>),
)
    requires
        table_wf(items),
    ensures
        table_wf(delete_items(items, key)),
        lookup(delete_items(items, key), other) == if other == key {
            None
        } else {
            lookup(items, other)
        },
{
    if has_key(items, key) {
        let i = key_index(items, key);
        let after = items.remove(i);
        assert forall|a: int| 0 <= a < after.len() implies (#[trigger] item_key(after[a])) is Some by {
            let a2 = if a < i { a } else { a + 1 };
            assert(after[a] == items[a2]);
        }
        assert forall|a: int, b: int|
            0 <= a < after.len() && 0 <= b < after.len() && a != b implies item_key(
                #[trigger] after[a],
            ) != item_key(#[trigger] after[b]) by {
            let a2 = if a < i { a } else { a + 1 };
            let b2 = if b < i { b } else { b + 1 };
            assert(after[a] == items[a2]);
            assert(after[b] == items[b2]);
        }
        if other == key {
            if has_key(after, other) {
                let a = key_index(after, other);
                let a2 = if a < i { a } else { a + 1 };
                assert(after[a] == items[a2]);
            }
        } else {
            if has_key(items, other) {
                let j = key_index(items, other);
                let j2 = if j < i { j } else { j - 1 };
                assert(after[j2] == items[j]);
                assert(has_key(after, other));
                let a = key_index(after, other);
                let a2 = if a < i { a } else { a + 1 };
                assert(after[a] == items[a2]);
            } else {
                if has_key(after, other) {
                    let a = key_index(after, other);
                    let a2 = if a < i { a } else { a + 1 };
                    assert(after[a] == items[a2]);
                }
            }
        }
    }
}

/// How many items one batch write takes at most.
pub const BATCH_WRITE_LIMIT: usize = 25;

/// How many batch writes a batch delete of `n` keys may issue: one for each full or partial
/// group of `BATCH_WRITE_LIMIT`, and two more for resubmissions.
pub open spec fn retry_ceiling(n: nat) -> nat {
    let groups: nat = if n % 25 == 0 {
        n / 25
    } else {
        n / 25 + 1
    };
    groups + 2
}

/// How many of `pending` keys a batch delete still holds after at most `writes` batch writes
/// to a table that leaves `percent` percent (rounded down) of each write unprocessed: each
/// write takes the first `min(25, pending)` keys and hands `chunk * percent / 100` of them
/// back; writing stops once nothing is pending.
pub open spec fn left_after(pending: nat, percent: nat, writes: nat) -> nat
    decreases writes,
{
    if writes == 0 || pending == 0 {
        pending
    } else {
        let chunk: nat = if pending < 25 {
            pending
        } else {
            25
        };
        left_after((pending - chunk + chunk * percent / 100) as nat, percent, (writes - 1) as nat)
    }
}

/// How many of `n` keys a bounded batch delete leaves undeleted on a table that leaves
/// `percent` percent of each write unprocessed.
pub open spec fn batch_delete_leaves(n: nat, percent: nat) -> nat {
    left_after(n, percent, retry_ceiling(n))
}

/// A table that processes nothing keeps every key pending, whatever the number of writes.
pub proof fn lemma_nothing_processed(pending: nat, writes: nat)
    ensures
        left_after(pending, 100, writes) == pending,
    decreases writes,
{
    if writes > 0 && pending > 0 {
        let chunk: nat = if pending < 25 {
            pending
        } else {
            25
        };
        assert(chunk * 100 / 100 == chunk) by (nonlinear_arith);
        lemma_nothing_processed(pending, (writes - 1) as nat);
    }
}

impl MemoryTable {
    /// One batch write of deletions. The table processes all but the last
    /// `unprocessed_percent` percent (rounded down) of `keys`, and hands those back unprocessed.
    pub fn batch_write_delete(&mut self, keys: Vec<(String, String)>) -> (unprocessed: Vec<
        (String, String),
    >)
        requires
            old(self).wf(),
            keys@.len() <= BATCH_WRITE_LIMIT,
        ensures
            final(self).wf(),
            final(self).spec_page_size() == old(self).spec_page_size(),
            final(self).spec_unprocessed_percent() == old(self).spec_unprocessed_percent(),
            unprocessed@.len() == keys@.len() * old(self).spec_unprocessed_percent() / 100,
            unprocessed@ == keys@.subrange(keys@.len() - unprocessed@.len(), keys@.len() as int),
            forall|k: (Seq<char>, Seq<char>)|
                #![trigger lookup(final(self)@, k)]
                lookup(final(self)@, k) == if key_views(keys@).subrange(
                    0,
                    keys@.len() - unprocessed@.len(),
                ).contains(k) {
                    None
                } else {
                    lookup(old(self)@, k)
                },
    {
        let n = keys.len();
        let pct = self.unprocessed_percent;
        proof {
            assert(n * pct <= 25 * 100) by (nonlinear_arith)
                requires
                    n <= 25,
                    pct <= 100,
            ;
            assert(n * pct / 100 <= n) by (nonlinear_arith)
                requires
                    pct <= 100,
            ;
        }
        let kept = n * pct / 100;
        let done = n - kept;
        let ghost old_items = self@;
        let ghost kv = key_views(keys@);
        let mut i: usize = 0;
        while i < done
            invariant
                self.wf(),
                self.spec_page_size() == old(self).spec_page_size(),
                self.spec_unprocessed_percent() == old(self).spec_unprocessed_percent(),
                i <= done <= n,
                n == keys@.len(),
                kv == key_views(keys@),
                forall|k: (Seq<char>, Seq<char>)|
                    #![trigger lookup(self@, k)]
                    lookup(self@, k) == if kv.subrange(0, i as int).contains(k) {
                        None
                    } else {
                        lookup(old_items, k)
                    },
            decreases done - i,
        {
            let ghost before = self@;
            self.delete_item(&keys[i].0, &keys[i].1);
            proof {
                let key = (keys@[i as int].0@, keys@[i as int].1@);
                assert(kv[i as int] == key);
                assert forall|k: (Seq<char>, Seq<char>)| #[trigger] lookup(self@, k) == if kv.subrange(0, i + 1).contains(k) {
                    None
                } else {
                    lookup(old_items, k)
                } by {
                    lemma_delete_lookup(before, key, k);
                    if kv.subrange(0, i as int).contains(k) {
                        let j = choose|j: int| 0 <= j < i && #[trigger] kv.subrange(0, i as int)[j] == k;
                        assert(kv.subrange(0, i + 1)[j] == k);
                    }
                    if kv.subrange(0, i + 1).contains(k) && k != key {
                        let j = choose|j: int| 0 <= j < i + 1 && #[trigger] kv.subrange(0, i + 1)[j] == k;
                        assert(j != i);
                        assert(kv.subrange(0, i as int)[j] == k);
                    }
                    if k == key {
                        assert(kv.subrange(0, i + 1)[i as int] == k);
                    }
                }
            }
            i = i + 1;
        }
        let mut keys = keys;
        let unprocessed = keys.split_off(done);
        unprocessed
    }
}

/// The state of a bounded batch delete: the keys still to delete, and the batch writes issued
/// so far out of the most allowed.
pub struct BatchDelete {
    pending: Vec<(String, String)>,
    attempts: usize,
    max_attempts: usize,
}

impl BatchDelete {
    pub closed spec fn spec_pending(&self) -> Seq<(String, String)> {
        self.pending@
    }

    pub closed spec fn spec_attempts(&self) -> nat {
        self.attempts as nat
    }

    pub closed spec fn spec_max_attempts(&self) -> nat {
        self.max_attempts as nat
    }

    /// A delete of `keys`, allowed `retry_ceiling(n)` batch writes for `n` keys.
    pub fn new(keys: Vec<(String, String)>) -> (r: BatchDelete)
        ensures
            r.spec_pending() == keys@,
            r.spec_attempts() == 0,
            r.spec_max_attempts() == retry_ceiling(keys@.len()),
    {
        let n = keys.len();
        let groups = if n % BATCH_WRITE_LIMIT == 0 {
            n / BATCH_WRITE_LIMIT
        } else {
            n / BATCH_WRITE_LIMIT + 1
        };
        BatchDelete { pending: keys, attempts: 0, max_attempts: groups + 2 }
    }

    /// The next batch write to issue: the first `BATCH_WRITE_LIMIT` pending keys, taken out of
    /// the pending list. `None` once nothing is pending or every allowed write was issued.
    pub fn next_request(&mut self) -> (r: Option<Vec<(String, String)>>)
        ensures
            final(self).spec_max_attempts() == old(self).spec_max_attempts(),
            match r {
                None => *final(self) == *old(self) && (old(self).spec_pending().len() == 0
                    || old(self).spec_attempts() >= old(self).spec_max_attempts()),
                Some(chunk) => {
                    &&& old(self).spec_pending().len() > 0
                    &&& old(self).spec_attempts() < old(self).spec_max_attempts()
                    &&& final(self).spec_attempts() == old(self).spec_attempts() + 1
                    &&& chunk@.len() == if old(self).spec_pending().len() < BATCH_WRITE_LIMIT {
                        old(self).spec_pending().len()
                    } else {
                        BATCH_WRITE_LIMIT as nat
                    }
                    &&& chunk@ + final(self).spec_pending() == old(self).spec_pending()
                },
            },
    {
        if self.pending.len() == 0 || self.attempts >= self.max_attempts {
            return None;
        }
        let take = if self.pending.len() < BATCH_WRITE_LIMIT {
            self.pending.len()
        } else {
            BATCH_WRITE_LIMIT
        };
        let rest = self.pending.split_off(take);
        let mut chunk = Vec::new();
        chunk.append(&mut self.pending);
        self.pending = rest;
        self.attempts = self.attempts + 1;
        Some(chunk)
    }

    /// Puts the keys that the store left unprocessed back in front of the pending ones.
    pub fn record_unprocessed(&mut self, unprocessed: Vec<(String, String)>)
        ensures
            final(self).spec_pending() == unprocessed@ + old(self).spec_pending(),
            final(self).spec_attempts() == old(self).spec_attempts(),
            final(self).spec_max_attempts() == old(self).spec_max_attempts(),
    {
        let mut front = unprocessed;
        front.append(&mut self.pending);
        self.pending = front;
    }

    /// `Ok` once nothing is pending; otherwise the number of keys left undeleted.
    pub fn outcome(&self) -> (r: Result<(), DbError>)
        ensures
            match r {
                Ok(()) => self.spec_pending().len() == 0,
                Err(e) => self.spec_pending().len() > 0 && (e matches DbError::PartialFailure(n)
                    && n == self.spec_pending().len()),
            },
    {
        if self.pending.len() == 0 {
            Ok(())
        } else {
            Err(DbError::PartialFailure(self.pending.len()))
        }
    }
}

/// `k` is among the keys of `keys`.
pub open spec fn has_key_pair(keys: Seq<(String, String)>, k: (Seq<char>, Seq<char>)) -> bool {
    key_views(keys).contains(k)
}

proof fn lemma_has_key_pair_add(
    a: Seq<(String, String)>,
    b: Seq<(String, String)>,
    k: (Seq<char>, Seq<char>),
)
    ensures
        has_key_pair(a + b, k) == (has_key_pair(a, k) || has_key_pair(b, k)),
{
    let ab = key_views(a + b);
    if has_key_pair(a + b, k) {
        let j = choose|j: int| 0 <= j < ab.len() && #[trigger] ab[j] == k;
        if j < a.len() {
            assert(key_views(a)[j] == k);
        } else {
            assert(key_views(b)[j - a.len()] == k);
        }
    }
    if has_key_pair(a, k) {
        let j = choose|j: int| 0 <= j < a.len() && #[trigger] key_views(a)[j] == k;
        assert(ab[j] == k);
    }
    if has_key_pair(b, k) {
        let j = choose|j: int| 0 <= j < b.len() && #[trigger] key_views(b)[j] == k;
        assert(ab[a.len() + j] == k);
    }
}

/// Deletes every item stored under `keys`, in batch writes of at most `BATCH_WRITE_LIMIT`
/// keys, resubmitting what the store leaves unprocessed, within `retry_ceiling` writes. It
/// ends in `Ok` only when every key was deleted, and otherwise reports `PartialFailure` with
/// the number of keys left. Items under other keys stay as they were.
pub fn batch_delete(table: &mut MemoryTable, keys: Vec<(String, String)>) -> (r: Result<
    (),
    DbError,
>)
    requires
        old(table).wf(),
    ensures
        final(table).wf(),
        final(table).spec_page_size() == old(table).spec_page_size(),
        final(table).spec_unprocessed_percent() == old(table).spec_unprocessed_percent(),
        forall|k: (Seq<char>, Seq<char>)|
            #![trigger lookup(final(table)@, k)]
            !has_key_pair(keys@, k) ==> lookup(final(table)@, k) == lookup(old(table)@, k),
        r is Ok ==> forall|k: (Seq<char>, Seq<char>)|
            #![trigger lookup(final(table)@, k)]
            has_key_pair(keys@, k) ==> lookup(final(table)@, k) is None,
        r is Err ==> (r matches Err(DbError::PartialFailure(n)) && 0 < n <= keys@.len()),
        (r is Ok) <==> batch_delete_leaves(keys@.len(), old(table).spec_unprocessed_percent()) == 0,
        r matches Err(DbError::PartialFailure(n)) ==> n == batch_delete_leaves(
            keys@.len(),
            old(table).spec_unprocessed_percent(),
        ),
        old(table).spec_unprocessed_percent() == 0 ==> r is Ok,
        old(table).spec_unprocessed_percent() == 100 && keys@.len() > 0 ==> (r matches Err(
            DbError::PartialFailure(n),
        ) && n == keys@.len()),
{
    let ghost orig = keys@;
    let ghost old_items = table@;
    let ghost groups: nat = (retry_ceiling(keys@.len()) - 2) as nat;
    let ghost pct = table.spec_unprocessed_percent();
    let ghost left = batch_delete_leaves(keys@.len(), pct);
    proof {
        let n = keys@.len();
        assert(n == 25 * (n / 25) + n % 25);
        table.lemma_wf();
    }
    let mut job = BatchDelete::new(keys);
    loop
        invariant
            table.wf(),
            table.spec_page_size() == old(table).spec_page_size(),
            table.spec_unprocessed_percent() == old(table).spec_unprocessed_percent(),
            job.spec_max_attempts() == groups + 2,
            job.spec_pending().len() <= orig.len(),
            forall|k: (Seq<char>, Seq<char>)|
                #![trigger lookup(table@, k)]
                !has_key_pair(orig, k) ==> lookup(table@, k) == lookup(old_items, k),
            forall|k: (Seq<char>, Seq<char>)|
                #![trigger lookup(table@, k)]
                has_key_pair(orig, k) && !has_key_pair(job.spec_pending(), k) ==> lookup(
                    table@,
                    k,
                ) is None,
            forall|k: (Seq<char>, Seq<char>)|
                #![trigger has_key_pair(job.spec_pending(), k)]
                has_key_pair(job.spec_pending(), k) ==> has_key_pair(orig, k),
            table.spec_unprocessed_percent() == 0 ==> job.spec_attempts() <= groups
                && job.spec_pending().len() <= 25 * (groups - job.spec_attempts()),
            pct == table.spec_unprocessed_percent(),
            pct <= 100,
            job.spec_attempts() <= job.spec_max_attempts(),
            left_after(
                job.spec_pending().len(),
                pct,
                (job.spec_max_attempts() - job.spec_attempts()) as nat,
            ) == left,
        ensures
            job.spec_pending().len() == left,
            table.wf(),
            table.spec_page_size() == old(table).spec_page_size(),
            table.spec_unprocessed_percent() == old(table).spec_unprocessed_percent(),
            job.spec_pending().len() <= orig.len(),
            forall|k: (Seq<char>, Seq<char>)|
                #![trigger lookup(table@, k)]
                !has_key_pair(orig, k) ==> lookup(table@, k) == lookup(old_items, k),
            forall|k: (Seq<char>, Seq<char>)|
                #![trigger lookup(table@, k)]
                has_key_pair(orig, k) && !has_key_pair(job.spec_pending(), k) ==> lookup(
                    table@,
                    k,
                ) is None,
            table.spec_unprocessed_percent() == 0 ==> job.spec_pending().len() == 0,
        decreases job.spec_max_attempts() - job.spec_attempts(),
    {
        let ghost pending_before = job.spec_pending();
        let ghost table_before = table@;
        match job.next_request() {
            None => {
                break;
            },
            Some(chunk) => {
                let ghost chunk_keys = chunk@;
                let ghost rest = job.spec_pending();
                let unprocessed = table.batch_write_delete(chunk);
                let ghost u = unprocessed@;
                proof {
                    assert(u.len() <= chunk_keys.len()) by (nonlinear_arith)
                        requires
                            u.len() == chunk_keys.len() * table.spec_unprocessed_percent() / 100,
                            table.spec_unprocessed_percent() <= 100,
                    {
                    }
                }
                let ghost done = chunk_keys.subrange(0, chunk_keys.len() - u.len());
                proof {
                    assert(done + u =~= chunk_keys);
                    assert(key_views(chunk_keys).subrange(0, chunk_keys.len() - u.len()) =~= key_views(done));
                }
                job.record_unprocessed(unprocessed);
                proof {
                    assert forall|k: (Seq<char>, Seq<char>)| #[trigger] has_key_pair(job.spec_pending(), k) implies has_key_pair(orig, k) by {
                        lemma_has_key_pair_add(u, rest, k);
                        lemma_has_key_pair_add(done, u, k);
                        lemma_has_key_pair_add(chunk_keys, rest, k);
                    }
                    assert forall|k: (Seq<char>, Seq<char>)| #[trigger] lookup(table@, k) == (if !has_key_pair(orig, k) {
                        lookup(old_items, k)
                    } else {
                        lookup(table@, k)
                    }) by {
                        lemma_has_key_pair_add(done, u, k);
                        lemma_has_key_pair_add(chunk_keys, rest, k);
                    }
                    assert forall|k: (Seq<char>, Seq<char>)| has_key_pair(orig, k) && !has_key_pair(job.spec_pending(), k) implies #[trigger] lookup(table@, k) is None by {
                        lemma_has_key_pair_add(u, rest, k);
                        lemma_has_key_pair_add(done, u, k);
                        lemma_has_key_pair_add(chunk_keys, rest, k);
                    }
                }
            },
        }
    }
    let r = job.outcome();
    proof {
        if pct == 100 {
            lemma_nothing_processed(orig.len(), retry_ceiling(orig.len()));
        }
        if r is Err {
            assert(job.spec_pending().len() <= orig.len());
        }
    }
    r
}

/// `m` without each name of `names`.
pub open spec fn remove_all(m: Item, names: Seq<Seq<char>>) -> Item
    decreases names.len(),
{
    if names.len() == 0 {
        m
    } else {
        remove_all(m, names.drop_last()).remove(names.last())
    }
}

/// Removing names other than `name` keeps what is stored under `name`.
pub proof fn lemma_remove_all_keeps(m: Item, names: Seq<Seq<char>>, name: Seq<char>)
    requires
        !names.contains(name),
    ensures
        remove_all(m, names).contains_key(name) == m.contains_key(name),
        m.contains_key(name) ==> remove_all(m, names)[name] == m[name],
    decreases names.len(),
{
    if names.len() > 0 {
        assert(!names.drop_last().contains(name)) by {
            if names.drop_last().contains(name) {
                let j = choose|j: int| 0 <= j < names.drop_last().len() && #[trigger] names.drop_last()[j] == name;
                assert(names[j] == name);
            }
        }
        assert(names[names.len() - 1] != name);
        lemma_remove_all_keeps(m, names.drop_last(), name);
    }
}

/// A partial update of one item: names to set, then names to remove.
pub struct Update {
    pub sets: Attributes,
    pub removes: Vec<String>,
}

/// The names an update removes.
pub open spec fn removed_names(u: &Update) -> Seq<Seq<char>> {
    u.removes@.map_values(|s: String| s@)
}

/// The item that `u` makes of `m`.
pub open spec fn updated(m: Item, u: &Update) -> Item {
    remove_all(m.union_prefer_right(u.sets@), removed_names(u))
}

/// `u` leaves the key attributes alone.
pub open spec fn keeps_key(u: &Update) -> bool {
    &&& !u.sets@.contains_key("primary_key"@)
    &&& !u.sets@.contains_key("id"@)
    &&& !removed_names(u).contains("primary_key"@)
    &&& !removed_names(u).contains("id"@)
}

/// The item that an update under `key` starts from: the stored one, or only the key.
pub open spec fn update_base(items: Seq<Item>, key: (Seq<char>, Seq<char>)) -> Item {
    match lookup(items, key) {
        Some(m) => m,
        None => Map::empty().insert("primary_key"@, WireValue::S(key.0)).insert(
            "id"@,
            WireValue::S(key.1),
        ),
    }
}

impl MemoryTable {
    /// Applies `update` to the item under `(primary_key, id)`, creating it from its key where
    /// absent, and returns the item as it now stands.
    pub fn update_item(&mut self, primary_key: &String, id: &String, update: &Update) -> (r:
        Attributes)
        requires
            old(self).wf(),
            keeps_key(update),
        ensures
            final(self).wf(),
            final(self).spec_page_size() == old(self).spec_page_size(),
            final(self).spec_unprocessed_percent() == old(self).spec_unprocessed_percent(),
            r@ == updated(update_base(old(self)@, (primary_key@, id@)), update),
            item_key(r@) == Some((primary_key@, id@)),
            final(self)@ == put_items(old(self)@, r@),
    {
        let mut item = match self.get_item(primary_key, id) {
            Some(m) => m,
            None => {
                let mut m = Attributes::new();
                m.insert_string("primary_key", primary_key.clone());
                m.insert_string("id", id.clone());
                m
            },
        };
        let ghost base = item@;
        proof {
            if lookup(self@, (primary_key@, id@)) is None {
                reveal_strlit("primary_key");
                reveal_strlit("id");
                assert("primary_key"@.len() == 11 && "id"@.len() == 2);
                assert(base =~= update_base(self@, (primary_key@, id@)));
            } else {
                let k = key_index(self@, (primary_key@, id@));
                assert(item_key(self@[k]) == Some((primary_key@, id@)));
            }
            assert(item_key(base) == Some((primary_key@, id@)));
        }
        item.merge(&update.sets);
        let mut i: usize = 0;
        while i < update.removes.len()
            invariant
                i <= update.removes@.len(),
                item@ == remove_all(
                    base.union_prefer_right(update.sets@),
                    removed_names(update).take(i as int),
                ),
            decreases update.removes@.len() - i,
        {
            proof {
                assert(removed_names(update).take(i + 1).drop_last() =~= removed_names(update).take(
                    i as int,
                ));
            }
            item.remove(update.removes[i].as_str());
            i = i + 1;
        }
        proof {
            assert(removed_names(update).take(i as int) =~= removed_names(update));
            lemma_remove_all_keeps(base.union_prefer_right(update.sets@), removed_names(update), "primary_key"@);
            lemma_remove_all_keeps(base.union_prefer_right(update.sets@), removed_names(update), "id"@);
        }
        let stored = item.duplicate();
        let _ = self.put_item(stored);
        item
    }
}

/// Every selected item is an item of the table that the selector selects.
pub proof fn lemma_selected_from(items: Seq<Item>, c: Selector, i: int)
    requires
        0 <= i < selected(items, c).len(),
    ensures
        items.contains(selected(items, c)[i]),
        selects(c, selected(items, c)[i]),
    decreases items.len(),
{
    if items.len() > 0 {
        let rest = selected(items.drop_last(), c);
        if selects(c, items.last()) && i == rest.len() {
            assert(items[items.len() - 1] == items.last());
        } else {
            lemma_selected_from(items.drop_last(), c, i);
            let x = selected(items, c)[i];
            let k = choose|k: int| 0 <= k < items.drop_last().len() && items.drop_last()[k] == x;
            assert(items[k] == x);
        }
    }
}

/// Some selected item is stored under `k`.
pub open spec fn selected_key(items: Seq<Item>, c: Selector, k: (Seq<char>, Seq<char>)) -> bool {
    exists|i: int|
        0 <= i < selected(items, c).len() && item_key(#[trigger] selected(items, c)[i]) == Some(k)
}

/// The key of each of `items`, in order. An item without a string `primary_key` and `id` is
/// refused as `RecordInvalid`.
pub fn keys_of(items: &Vec<Attributes>) -> (r: Result<Vec<(String, String)>, DbError>)
    ensures
        (r is Ok) <==> forall|i: int| 0 <= i < items@.len() ==> (#[trigger] item_key(items@[i]@)) is Some,
        r matches Ok(keys) ==> keys@.len() == items@.len() && forall|j: int|
            0 <= j < keys@.len() ==> Some(#[trigger] key_views(keys@)[j]) == item_key(items@[j]@),
        r is Err ==> (r matches Err(DbError::RecordInvalid(_))),
{
    let mut keys: Vec<(String, String)> = Vec::new();
    let mut i: usize = 0;
    while i < items.len()
        invariant
            i <= items@.len(),
            keys@.len() == i,
            forall|j: int| 0 <= j < i ==> (#[trigger] item_key(items@[j]@)) is Some,
            forall|j: int| 0 <= j < i ==> Some(#[trigger] key_views(keys@)[j]) == item_key(items@[j]@),
        decreases items@.len() - i,
    {
        let pk = match items[i].string("primary_key") {
            Ok(x) => x,
            Err(e) => return Err(e),
        };
        let sk = match items[i].string("id") {
            Ok(x) => x,
            Err(e) => return Err(e),
        };
        let ghost before = keys@;
        proof {
            assert(item_key(items@[i as int]@) == Some((pk@, sk@)));
        }
        keys.push((pk, sk));
        proof {
            assert forall|j: int| 0 <= j < i + 1 implies Some(#[trigger] key_views(keys@)[j])
                == item_key(items@[j]@) by {
                if j < i {
                    assert(keys@[j] == before[j]);
                    assert(Some(key_views(before)[j]) == item_key(items@[j]@));
                    assert(key_views(keys@)[j] == key_views(before)[j]);
                } else {
                    assert(key_views(keys@)[j] == (keys@[j].0@, keys@[j].1@));
                }
            }
        }
        i = i + 1;
    }
    Ok(keys)
}

/// The keys of the items that `condition` selects.
pub fn selected_keys(table: &MemoryTable, condition: &KeyCondition) -> (r: Vec<(String, String)>)
    requires
        table.wf(),
    ensures
        r@.len() == selected(table@, condition@).len(),
        forall|k: (Seq<char>, Seq<char>)|
            #![trigger has_key_pair(r@, k)]
            has_key_pair(r@, k) == selected_key(table@, condition@, k),
{
    let items = query(table, condition);
    let ghost s = selected(table@, condition@);
    proof {
        assert forall|i: int| 0 <= i < items@.len() implies (#[trigger] item_key(items@[i]@)) is Some by {
            assert(s[i] == items@[i]@);
            lemma_selected_from(table@, condition@, i);
            let k = choose|k: int| 0 <= k < table@.len() && table@[k] == s[i];
            assert(item_key(table@[k]) is Some);
        }
    }
    let keys = match keys_of(&items) {
        Ok(keys) => keys,
        Err(_) => {
            proof {
                assert(false);
            }
            Vec::new()
        },
    };
    proof {
        assert forall|k: (Seq<char>, Seq<char>)| #[trigger] has_key_pair(keys@, k) == selected_key(table@, condition@, k) by {
            if has_key_pair(keys@, k) {
                let j = choose|j: int| 0 <= j < key_views(keys@).len() && #[trigger] key_views(keys@)[j] == k;
                assert(s[j] == items@[j]@);
                assert(item_key(s[j]) == Some(k));
            }
            if selected_key(table@, condition@, k) {
                let j = choose|j: int| 0 <= j < s.len() && item_key(#[trigger] s[j]) == Some(k);
                assert(s[j] == items@[j]@);
                assert(key_views(keys@)[j] == k);
            }
        }
    }
    keys
}

/// `n = :n` for each name, joined by commas.
pub open spec fn assignments(names: Seq<Seq<char>>) -> Seq<char>
    decreases names.len(),
{
    if names.len() == 0 {
        Seq::empty()
    } else if names.len() == 1 {
        names[0] + " = :"@ + names[0]
    } else {
        assignments(names.drop_last()) + ", "@ + names.last() + " = :"@ + names.last()
    }
}

/// The names joined by commas.
pub open spec fn name_list(names: Seq<Seq<char>>) -> Seq<char>
    decreases names.len(),
{
    if names.len() == 0 {
        Seq::empty()
    } else if names.len() == 1 {
        names[0]
    } else {
        name_list(names.drop_last()) + ", "@ + names.last()
    }
}

/// The text of an update expression that sets `sets`, each from the value bound to its name
/// behind a colon, and removes `removes`.
pub open spec fn update_text(sets: Seq<Seq<char>>, removes: Seq<Seq<char>>) -> Seq<char> {
    let set_part = if sets.len() > 0 {
        "SET "@ + assignments(sets)
    } else {
        Seq::empty()
    };
    let gap = if sets.len() > 0 && removes.len() > 0 {
        " "@
    } else {
        Seq::empty()
    };
    let remove_part = if removes.len() > 0 {
        "REMOVE "@ + name_list(removes)
    } else {
        Seq::empty()
    };
    set_part + gap + remove_part
}

/// The names of a list of named values.
pub open spec fn entry_names(e: Seq<(String, AttributeValue)>) -> Seq<Seq<char>> {
    e.map_values(|x: (String, AttributeValue)| x.0@)
}

/// The names joined by commas, each as an assignment from its bound value where `assign`.
fn join_names(names: &Vec<String>, assign: bool) -> (r: String)
    ensures
        r@ == if assign {
            assignments(names@.map_values(|s: String| s@))
        } else {
            name_list(names@.map_values(|s: String| s@))
        },
{
    let ghost ns = names@.map_values(|s: String| s@);
    let mut r = String::new();
    let mut i: usize = 0;
    while i < names.len()
        invariant
            i <= names@.len(),
            ns == names@.map_values(|s: String| s@),
            r@ == if assign {
                assignments(ns.take(i as int))
            } else {
                name_list(ns.take(i as int))
            },
        decreases names@.len() - i,
    {
        proof {
            assert(ns.take(i + 1).drop_last() =~= ns.take(i as int));
            assert(ns.take(i + 1).last() == names@[i as int]@);
            if i == 0 {
                assert(ns.take(1)[0] == names@[0]@);
            }
        }
        if i > 0 {
            r = r.concat(", ");
        }
        r = r.concat(names[i].as_str());
        if assign {
            r = r.concat(" = :").concat(names[i].as_str());
        }
        proof {
            if i == 0 {
                assert(r@ =~= (if assign { assignments(ns.take(1)) } else { name_list(ns.take(1)) }));
            } else {
                assert(r@ =~= (if assign { assignments(ns.take(i + 1)) } else { name_list(ns.take(i + 1)) }));
            }
        }
        i = i + 1;
    }
    proof {
        assert(ns.take(i as int) =~= ns);
    }
    r
}

impl Update {
    /// The update expression that the store applies: the names set, in the order they were
    /// set, then the names removed.
    pub fn expression(&self) -> (r: String)
        ensures
            r@ == update_text(
                self.sets.names(),
                self.removes@.map_values(|s: String| s@),
            ),
    {
        let entries = self.sets.to_entries();
        let mut names: Vec<String> = Vec::new();
        let mut i: usize = 0;
        while i < entries.len()
            invariant
                i <= entries@.len(),
                names@.len() == i,
                names@.map_values(|s: String| s@) == entry_names(entries@.take(i as int)),
            decreases entries@.len() - i,
        {
            let ghost before = names@;
            names.push(entries[i].0.clone());
            proof {
                let a = names@.map_values(|s: String| s@);
                let b = entry_names(entries@.take(i + 1));
                assert(a.len() == b.len());
                assert forall|j: int| 0 <= j < a.len() implies a[j] == b[j] by {
                    if j < i {
                        assert(names@[j] == before[j]);
                        assert(before.map_values(|s: String| s@)[j] == entry_names(entries@.take(i as int))[j]);
                    }
                }
                assert(a =~= b);
            }
            i = i + 1;
        }
        proof {
            assert(entries@.take(i as int) =~= entries@);
        }
        let sets = join_names(&names, true);
        let removes = join_names(&self.removes, false);
        let mut r = String::new();
        if names.len() > 0 {
            r = String::from_str("SET ").concat(sets.as_str());
        }
        if names.len() > 0 && self.removes.len() > 0 {
            r = r.concat(" ");
        }
        if self.removes.len() > 0 {
            r = r.concat("REMOVE ").concat(removes.as_str());
        }
        proof {
            assert(entry_names(entries@) =~= self.sets.names());
            assert(r@ =~= update_text(entry_names(entries@), self.removes@.map_values(|s: String| s@)));
        }
        r
    }
}

/// The values an update expression refers to: each value of `sets` under its name behind a
/// colon.
pub open spec fn bound_values(sets: Item) -> Item {
    Map::new(
        |k: Seq<char>| k.len() > 0 && k[0] == ':' && sets.contains_key(k.drop_first()),
        |k: Seq<char>| sets[k.drop_first()],
    )
}

impl Update {
    /// The values that `expression` refers to.
    pub fn expression_values(&self) -> (r: Attributes)
        ensures
            r@ == bound_values(self.sets@),
    {
        let entries = self.sets.to_entries();
        let mut values = Attributes::new();
        let mut i: usize = 0;
        proof {
            assert(values@ =~= bound_values(entries_map(entries@.take(0))));
        }
        while i < entries.len()
            invariant
                i <= entries@.len(),
                values@ == bound_values(entries_map(entries@.take(i as int))),
            decreases entries@.len() - i,
        {
            let name = String::from_str(":").concat(entries[i].0.as_str());
            proof {
                reveal_strlit(":");
                assert(entries@.take(i + 1).drop_last() =~= entries@.take(i as int));
                assert(name@.drop_first() =~= entries@[i as int].0@);
                assert(name@[0] == ':');
            }
            let ghost before = values@;
            values.insert(name, entries[i].1.clone_value());
            proof {
                let m = entries_map(entries@.take(i as int));
                let m2 = entries_map(entries@.take(i + 1));
                let n = entries@[i as int].0@;
                assert(m2 == m.insert(n, entries@[i as int].1@));
                assert forall|k: Seq<char>| k.len() > 0 && k[0] == ':' && k.drop_first() == n implies k == name@ by {
                    assert(k =~= name@);
                }
                assert(values@ =~= bound_values(m2));
            }
            i = i + 1;
        }
        proof {
            assert(entries@.take(i as int) =~= entries@);
        }
        values
    }
}

} // verus!
