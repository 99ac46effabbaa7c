//! Log records: named text fields, one of which holds the message.
use vstd::prelude::*;

verus! {

/// The field that holds a record's message text.
pub const MESSAGE_KEY: &'static str = "message";

/// The fields of a record, as values, in the order they were first set.
pub type Fields = Seq<(Seq<char>, Seq<char>)>;

/// The value of the first field named `k`.
pub open spec fn lookup(fields: Fields, k: Seq<char>) -> Option<Seq<char>>
    decreases fields.len(),
{
    if fields.len() == 0 {
        None
    } else if fields[0].0 == k {
        Some(fields[0].1)
    } else {
        lookup(fields.drop_first(), k)
    }
}

/// `fields` with the first field named `k` set to `v`, or with `(k, v)`
/// appended when there is no such field.
pub open spec fn with_field(fields: Fields, k: Seq<char>, v: Seq<char>) -> Fields
    decreases fields.len(),
{
    if fields.len() == 0 {
        seq![(k, v)]
    } else if fields[0].0 == k {
        fields.update(0, (k, v))
    } else {
        seq![fields[0]] + with_field(fields.drop_first(), k, v)
    }
}

/// The message of a record.
pub open spec fn message_of(fields: Fields) -> Option<Seq<char>> {
    lookup(fields, MESSAGE_KEY@)
}

proof fn lemma_lookup_at(fields: Fields, k: Seq<char>, i: int)
    requires
        0 <= i <= fields.len(),
        forall|j: int| 0 <= j < i ==> (#[trigger] fields[j]).0 != k,
    ensures
        lookup(fields, k) == lookup(fields.skip(i), k),
    decreases i,
{
    if i > 0 {
        lemma_lookup_at(fields.drop_first(), k, i - 1);
        assert(fields.drop_first().skip(i - 1) =~= fields.skip(i));
    } else {
        assert(fields.skip(0) =~= fields);
    }
}

proof fn lemma_with_field_at(fields: Fields, k: Seq<char>, v: Seq<char>, i: int)
    requires
        0 <= i <= fields.len(),
        forall|j: int| 0 <= j < i ==> (#[trigger] fields[j]).0 != k,
        i < fields.len() ==> fields[i].0 == k,
    ensures
        with_field(fields, k, v) == if i < fields.len() {
            fields.update(i, (k, v))
        } else {
            fields.push((k, v))
        },
    decreases i,
{
    if i > 0 {
        lemma_with_field_at(fields.drop_first(), k, v, i - 1);
        if i < fields.len() {
            assert(seq![fields[0]] + fields.drop_first().update(i - 1, (k, v)) =~= fields.update(
                i,
                (k, v),
            ));
        } else {
            assert(seq![fields[0]] + fields.drop_first().push((k, v)) =~= fields.push((k, v)));
        }
    } else if fields.len() == 0 {
        assert(seq![(k, v)] =~= fields.push((k, v)));
    }
}

/// A structured log record.
pub struct LogEvent {
    fields: Vec<(String, String)>,
}

impl View for LogEvent {
    type V = Fields;

    closed spec fn view(&self) -> Fields {
        self.fields@.map_values(|f: (String, String)| (f.0@, f.1@))
    }
}

impl LogEvent {
    /// A record with no fields.
    pub fn new() -> (r: LogEvent)
        ensures
            r@ == Seq::<(Seq<char>, Seq<char>)>::empty(),
    {
        let r = LogEvent { fields: Vec::new() };
        assert(r@ =~= Seq::<(Seq<char>, Seq<char>)>::empty());
        r
    }

    /// A record whose only field is the message `message`.
    pub fn from_message(message: &str) -> (r: LogEvent)
        ensures
            r@ == seq![(MESSAGE_KEY@, message@)],
    {
        let mut r = LogEvent::new();
        r.insert(MESSAGE_KEY, message.to_owned());
        r
    }

    /// The fields of the record, in order.
    pub fn fields(&self) -> (r: &Vec<(String, String)>)
        ensures
            r@.map_values(|f: (String, String)| (f.0@, f.1@)) == self@,
    {
        &self.fields
    }

    /// The value of the field `key`.
    pub fn get(&self, key: &str) -> (r: Option<&String>)
        ensures
            r matches Some(v) ==> lookup(self@, key@) == Some(v@),
            r is None ==> lookup(self@, key@) is None,
    {
        let wanted = key.to_owned();
        let mut i: usize = 0;
        while i < self.fields.len()
            invariant
                0 <= i <= self@.len(),
                self@.len() == self.fields@.len(),
                wanted@ == key@,
                forall|j: int| 0 <= j < i ==> (#[trigger] self@[j]).0 != wanted@,
            decreases self.fields@.len() - i,
        {
            if self.fields[i].0 == wanted {
                proof {
                    assert(self@[i as int] == (self.fields@[i as int].0@, self.fields@[i as int].1@));
                    lemma_lookup_at(self@, wanted@, i as int);
                    assert(self@.skip(i as int)[0] == self@[i as int]);
                }
                return Some(&self.fields[i].1);
            }
            i = i + 1;
        }
        proof {
            lemma_lookup_at(self@, wanted@, i as int);
        }
        None
    }

    /// Sets the field `key` to `value`, appending it when the record has no
    /// such field.
    pub fn insert(&mut self, key: &str, value: String)
        ensures
            final(self)@ == with_field(old(self)@, key@, value@),
    {
        let wanted = key.to_owned();
        let mut i: usize = 0;
        while i < self.fields.len()
            invariant
                0 <= i <= self@.len(),
                self@.len() == self.fields@.len(),
                *self == *old(self),
                wanted@ == key@,
                forall|j: int| 0 <= j < i ==> (#[trigger] self@[j]).0 != wanted@,
            decreases self.fields@.len() - i,
        {
            if self.fields[i].0 == wanted {
                proof {
                    assert(self@[i as int] == (self.fields@[i as int].0@, self.fields@[i as int].1@));
                    lemma_with_field_at(self@, wanted@, value@, i as int);
                }
                self.fields.set(i, (wanted, value));
                assert(self@ =~= old(self)@.update(i as int, (wanted@, value@)));
                return;
            }
            i = i + 1;
        }
        proof {
            lemma_with_field_at(self@, wanted@, value@, i as int);
        }
        self.fields.push((wanted, value));
        assert(self@ =~= old(self)@.push((wanted@, value@)));
    }

    /// A copy of the record.
    pub fn duplicate(&self) -> (r: LogEvent)
        ensures
            r@ == self@,
    {
        let mut fields: Vec<(String, String)> = Vec::new();
        let mut i: usize = 0;
        while i < self.fields.len()
            invariant
                0 <= i <= self.fields@.len(),
                fields@.len() == i,
                forall|j: int| 0 <= j < i ==> (#[trigger] fields@[j]).0@ == self.fields@[j].0@
                    && fields@[j].1@ == self.fields@[j].1@,
            decreases self.fields@.len() - i,
        {
            let f = &self.fields[i];
            fields.push((f.0.clone(), f.1.clone()));
            i = i + 1;
        }
        let r = LogEvent { fields };
        assert(r@ =~= self@);
        r
    }
}

} // verus!
