use vstd::prelude::*;

verus! {

/// Failures of the data-access layer.
#[derive(Debug)]
pub enum DbError {
    /// The store call failed, or a stored value could not be read (a malformed timestamp).
    Error(String),
    /// A stored item lacks a required field, or holds it with another wire type.
    RecordInvalid(String),
    /// Records fetched together contradict each other (a reply whose parent is absent).
    Inconsistent(String),
    /// A write that must not replace an existing item found one under its key.
    Conflict(String),
    /// A bounded retry ended with this many items still unprocessed.
    PartialFailure(usize),
}

/// The text of `RecordInvalid` for a field that is absent or not a string.
pub open spec fn missing_field_text(field: Seq<char>) -> Seq<char> {
    "Missing field '"@ + field + "'."@
}

/// The text of `Error` for a field whose timestamp does not parse.
pub open spec fn bad_timestamp_text(field: Seq<char>) -> Seq<char> {
    "Error parsing timestamps in field '"@ + field + "'"@
}

/// `head + field + tail`, the shape shared by the field messages.
fn quoted_field_message(head: &str, field: &str, tail: &str) -> (r: String)
    ensures
        r@ == head@ + field@ + tail@,
{
    let r = String::from_str(head);
    let r = r.concat(field);
    r.concat(tail)
}

impl DbError {
    /// `RecordInvalid` for the field `field`.
    pub fn missing_field(field: &str) -> (r: DbError)
        ensures
            r matches DbError::RecordInvalid(m) && m@ == missing_field_text(field@),
    {
        DbError::RecordInvalid(quoted_field_message("Missing field '", field, "'."))
    }

    /// A one-line description naming the kind and its detail.
    pub fn describe(&self) -> (r: String)
        ensures
            match self {
                DbError::Error(m) => r@ == "DbError::Error -> "@ + m@,
                DbError::RecordInvalid(m) => r@ == "DbError::RecordInvalid -> "@ + m@,
                DbError::Inconsistent(m) => r@ == "DbError::Inconsistent -> "@ + m@,
                DbError::Conflict(m) => r@ == "DbError::Conflict -> "@ + m@,
                DbError::PartialFailure(_) => r@ == "DbError::PartialFailure"@,
            },
    {
        match self {
            DbError::Error(m) => String::from_str("DbError::Error -> ").concat(m.as_str()),
            DbError::RecordInvalid(m) => String::from_str("DbError::RecordInvalid -> ").concat(
                m.as_str(),
            ),
            DbError::Inconsistent(m) => String::from_str("DbError::Inconsistent -> ").concat(
                m.as_str(),
            ),
            DbError::Conflict(m) => String::from_str("DbError::Conflict -> ").concat(m.as_str()),
            DbError::PartialFailure(_) => String::from_str("DbError::PartialFailure"),
        }
    }
}

/// A value as the store holds it on the wire.
pub enum AttributeValue {
    S(String),
    Bool(bool),
}

/// The mathematical content of an `AttributeValue`.
pub enum WireValue {
    S(Seq<char>),
    Bool(bool),
}

impl View for AttributeValue {
    type V = WireValue;

    open spec fn view(&self) -> WireValue {
        match self {
            AttributeValue::S(s) => WireValue::S(s@),
            AttributeValue::Bool(b) => WireValue::Bool(*b),
        }
    }
}

impl AttributeValue {
    pub fn clone_value(&self) -> (r: AttributeValue)
        ensures
            r@ == self@,
    {
        match self {
            AttributeValue::S(s) => AttributeValue::S(s.clone()),
            AttributeValue::Bool(b) => AttributeValue::Bool(*b),
        }
    }
}

/// The wire form of a string.
pub fn attribute_value(value: String) -> (r: AttributeValue)
    ensures
        r@ == WireValue::S(value@),
{
    AttributeValue::S(value)
}

/// The map that a list of named values denotes: a later entry overrides an earlier one.
pub open spec fn entries_map(e: Seq<(String, AttributeValue)>) -> Map<Seq<char>, WireValue>
    decreases e.len(),
{
    if e.len() == 0 {
        Map::empty()
    } else {
        entries_map(e.drop_last()).insert(e.last().0@, e.last().1@)
    }
}

/// The attributes of one stored item, by name.
pub struct Attributes {
    entries: Vec<(String, AttributeValue)>,
}

pub type DynamoDbAttributes = Attributes;

impl View for Attributes {
    type V = Map<Seq<char>, WireValue>;

    closed spec fn view(&self) -> Map<Seq<char>, WireValue> {
        entries_map(self.entries@)
    }
}

/// The string stored under `name`, if a string is stored there.
pub open spec fn wire_string(m: Map<Seq<char>, WireValue>, name: Seq<char>) -> Option<Seq<char>> {
    if m.contains_key(name) {
        match m[name] {
            WireValue::S(s) => Some(s),
            _ => None,
        }
    } else {
        None
    }
}

/// The boolean stored under `name`, if a boolean is stored there.
pub open spec fn wire_bool(m: Map<Seq<char>, WireValue>, name: Seq<char>) -> Option<bool> {
    if m.contains_key(name) {
        match m[name] {
            WireValue::Bool(b) => Some(b),
            _ => None,
        }
    } else {
        None
    }
}

impl Attributes {
    pub fn new() -> (r: Attributes)
        ensures
            r@ == Map::<Seq<char>, WireValue>::empty(),
    {
        Attributes { entries: Vec::new() }
    }

    /// Sets `name` to `value`, replacing what was there.
    pub fn insert(&mut self, name: String, value: AttributeValue)
        ensures
            final(self)@ == old(self)@.insert(name@, value@),
    {
        self.entries.push((name, value));
        proof {
            assert(self.entries@.drop_last() =~= old(self).entries@);
        }
    }

    /// Sets `name` to the string `value`.
    pub fn insert_string(&mut self, name: &str, value: String)
        ensures
            final(self)@ == old(self)@.insert(name@, WireValue::S(value@)),
    {
        self.insert(String::from_str(name), AttributeValue::S(value));
    }

    /// The value stored under `name`.
    pub fn get(&self, name: &str) -> (r: Option<&AttributeValue>)
        ensures
            match r {
                Some(v) => self@.contains_key(name@) && self@[name@] == v@,
                None => !self@.contains_key(name@),
            },
    {
        let key = String::from_str(name);
        let mut found: Option<usize> = None;
        let mut i: usize = 0;
        while i < self.entries.len()
            invariant
                i <= self.entries@.len(),
                key@ == name@,
                match found {
                    Some(j) => j < i && entries_map(self.entries@.take(i as int)).contains_key(
                        name@,
                    ) && entries_map(self.entries@.take(i as int))[name@]
                        == self.entries@[j as int].1@,
                    None => !entries_map(self.entries@.take(i as int)).contains_key(name@),
                },
            decreases self.entries@.len() - i,
        {
            proof {
                assert(self.entries@.take(i + 1).drop_last() =~= self.entries@.take(i as int));
            }
            if self.entries[i].0 == key {
                found = Some(i);
            }
            i = i + 1;
        }
        proof {
            assert(self.entries@.take(i as int) =~= self.entries@);
        }
        match found {
            Some(j) => Some(&self.entries[j].1),
            None => None,
        }
    }

    /// The names in the order they were set, repeats included.
    pub closed spec fn names(&self) -> Seq<Seq<char>> {
        self.entries@.map_values(|x: (String, AttributeValue)| x.0@)
    }

    /// A copy holding the same map.
    pub fn duplicate(&self) -> (r: Attributes)
        ensures
            r@ == self@,
            r.names() == self.names(),
    {
        let mut entries: Vec<(String, AttributeValue)> = Vec::new();
        let mut i: usize = 0;
        while i < self.entries.len()
            invariant
                i <= self.entries@.len(),
                entries@.len() == i,
                forall|j: int|
                    0 <= j < i ==> #[trigger] entries@[j].0@ == self.entries@[j].0@
                        && entries@[j].1@ == self.entries@[j].1@,
            decreases self.entries@.len() - i,
        {
            let name = self.entries[i].0.clone();
            let value = self.entries[i].1.clone_value();
            entries.push((name, value));
            i = i + 1;
        }
        proof {
            lemma_entries_map_same(entries@, self.entries@);
            assert(entries@.map_values(|x: (String, AttributeValue)| x.0@) =~= self.names());
        }
        Attributes { entries }
    }
}

/// Two lists whose entries agree name by name and value by value denote one map.
proof fn lemma_entries_map_same(a: Seq<(String, AttributeValue)>, b: Seq<(String, AttributeValue)>)
    requires
        a.len() == b.len(),
        forall|j: int| 0 <= j < a.len() ==> #[trigger] a[j].0@ == b[j].0@ && a[j].1@ == b[j].1@,
    ensures
        entries_map(a) == entries_map(b),
    decreases a.len(),
{
    if a.len() > 0 {
        lemma_entries_map_same(a.drop_last(), b.drop_last());
        assert(a.last().0@ == b.last().0@ && a.last().1@ == b.last().1@);
    }
}

/// An instant in UTC: whole seconds since the Unix epoch and the nanoseconds past them.
#[derive(Clone, Copy, PartialEq, Eq, Structural, Debug)]
pub struct Timestamp {
    pub seconds: i64,
    pub nanos: u32,
}

/// The instant that chrono reads from an RFC 3339 text; `None` where chrono rejects the text.
pub uninterp spec fn rfc3339_instant(text: Seq<char>) -> Option<Timestamp>;

/// Relies on chrono's `DateTime::parse_from_rfc3339`, read as seconds and nanoseconds
/// since the epoch (`timestamp`, `timestamp_subsec_nanos`): the result depends on the text alone.
#[verifier::external_body]
fn parse_rfc3339(text: &str) -> (r: Option<Timestamp>)
    ensures
        r == rfc3339_instant(text@),
{
    match chrono::DateTime::parse_from_rfc3339(text) {
        Ok(d) => Some(Timestamp { seconds: d.timestamp(), nanos: d.timestamp_subsec_nanos() }),
        Err(_) => None,
    }
}

/// What reading the timestamp field `name` of `m` yields: `Err(true)` for a field that is
/// absent or not a string, `Err(false)` for a string that is no RFC 3339 instant.
pub open spec fn wire_timestamp(m: Map<Seq<char>, WireValue>, name: Seq<char>) -> Result<
    Timestamp,
    bool,
> {
    match wire_string(m, name) {
        None => Err(true),
        Some(s) => match rfc3339_instant(s) {
            Some(t) => Ok(t),
            None => Err(false),
        },
    }
}

impl Attributes {
    /// The required string field `field_name`.
    pub fn string(&self, field_name: &str) -> (r: Result<String, DbError>)
        ensures
            match wire_string(self@, field_name@) {
                Some(s) => r matches Ok(v) && v@ == s,
                None => r matches Err(DbError::RecordInvalid(m)) && m@ == missing_field_text(
                    field_name@,
                ),
            },
    {
        match self.get(field_name) {
            Some(AttributeValue::S(s)) => Ok(s.clone()),
            _ => Err(DbError::missing_field(field_name)),
        }
    }

    /// The optional string field `field_name`: absent where no string is stored under it.
    pub fn optional_string(&self, field_name: &str) -> (r: Option<String>)
        ensures
            match wire_string(self@, field_name@) {
                Some(s) => r matches Some(v) && v@ == s,
                None => r is None,
            },
    {
        match self.get(field_name) {
            Some(AttributeValue::S(s)) => Some(s.clone()),
            _ => None,
        }
    }

    /// The optional boolean field `field_name`: absent where no boolean is stored under it.
    pub fn optional_bool(&self, field_name: &str) -> (r: Option<bool>)
        ensures
            r == wire_bool(self@, field_name@),
    {
        match self.get(field_name) {
            Some(AttributeValue::Bool(b)) => Some(*b),
            _ => None,
        }
    }

    /// The required timestamp field `field_name`, stored as RFC 3339 text. A missing field is
    /// `RecordInvalid`; text that is no instant is `Error`, since it means a corrupted store.
    pub fn timestamp(&self, field_name: &str) -> (r: Result<Timestamp, DbError>)
        ensures
            match wire_timestamp(self@, field_name@) {
                Ok(t) => r == Ok::<Timestamp, DbError>(t),
                Err(true) => r matches Err(DbError::RecordInvalid(m)) && m@ == missing_field_text(
                    field_name@,
                ),
                Err(false) => r matches Err(DbError::Error(m)) && m@ == bad_timestamp_text(
                    field_name@,
                ),
            },
    {
        match self.get(field_name) {
            Some(AttributeValue::S(s)) => match parse_rfc3339(s.as_str()) {
                Some(t) => Ok(t),
                None => Err(
                    DbError::Error(
                        quoted_field_message("Error parsing timestamps in field '", field_name, "'"),
                    ),
                ),
            },
            _ => Err(DbError::missing_field(field_name)),
        }
    }
}

impl Attributes {
    /// Drops `name`, and what was stored under it.
    pub fn remove(&mut self, name: &str)
        ensures
            final(self)@ == old(self)@.remove(name@),
    {
        let key = String::from_str(name);
        let mut kept: Vec<(String, AttributeValue)> = Vec::new();
        let mut i: usize = 0;
        while i < self.entries.len()
            invariant
                i <= self.entries@.len(),
                self.entries@ == old(self).entries@,
                key@ == name@,
                entries_map(kept@) == entries_map(self.entries@.take(i as int)).remove(name@),
            decreases self.entries@.len() - i,
        {
            let ghost prefix = self.entries@.take(i as int);
            proof {
                assert(self.entries@.take(i + 1).drop_last() =~= prefix);
            }
            if self.entries[i].0 != key {
                let ghost before = kept@;
                kept.push((self.entries[i].0.clone(), self.entries[i].1.clone_value()));
                proof {
                    assert(kept@.drop_last() =~= before);
                    assert(entries_map(kept@) =~= entries_map(self.entries@.take(i + 1)).remove(
                        name@,
                    ));
                }
            } else {
                proof {
                    assert(entries_map(kept@) =~= entries_map(self.entries@.take(i + 1)).remove(
                        name@,
                    ));
                }
            }
            i = i + 1;
        }
        proof {
            assert(self.entries@.take(i as int) =~= self.entries@);
        }
        self.entries = kept;
    }
}

impl Attributes {
    /// Sets every name of `other` to its value there, replacing what was stored.
    pub fn merge(&mut self, other: &Attributes)
        ensures
            final(self)@ == old(self)@.union_prefer_right(other@),
    {
        let mut i: usize = 0;
        while i < other.entries.len()
            invariant
                i <= other.entries@.len(),
                self@ == old(self)@.union_prefer_right(entries_map(other.entries@.take(i as int))),
            decreases other.entries@.len() - i,
        {
            proof {
                assert(other.entries@.take(i + 1).drop_last() =~= other.entries@.take(i as int));
            }
            let ghost before = self@;
            self.insert(other.entries[i].0.clone(), other.entries[i].1.clone_value());
            proof {
                assert(self@ =~= old(self)@.union_prefer_right(
                    entries_map(other.entries@.take(i + 1)),
                ));
            }
            i = i + 1;
        }
        proof {
            assert(other.entries@.take(i as int) =~= other.entries@);
        }
    }
}

/// The content of an optional string.
pub open spec fn opt_view(o: Option<String>) -> Option<Seq<char>> {
    match o {
        Some(s) => Some(s@),
        None => None,
    }
}

impl Attributes {
    /// The named values, in the order they were set; where a name repeats, the later holds.
    pub fn to_entries(&self) -> (r: Vec<(String, AttributeValue)>)
        ensures
            entries_map(r@) == self@,
            r@.map_values(|x: (String, AttributeValue)| x.0@) == self.names(),
    {
        self.duplicate().entries
    }
}

} // verus!
