use vstd::prelude::*;
use vstd::utf8::*;

verus! {

/// A number: a signed 64-bit integer, or a binary64 float held as its IEEE 754
/// bit pattern.
#[derive(Clone, Copy, Debug, PartialEq, Eq, Structural)]
pub enum Number {
    I64(i64),
    F64(u64),
}

/// A value tree whose strings borrow from the input buffer.
#[derive(Debug, PartialEq)]
pub enum Value<'a> {
    Null,
    Bool(bool),
    Number(Number),
    String(&'a str),
    Array(Vec<Value<'a>>),
    Object(Object<'a>),
}

/// A mapping from borrowed string keys to values. Each key occurs once; a
/// later insertion of an equal key replaces the value. The derived `==`
/// compares the entries in the order they were first inserted.
#[derive(Debug, PartialEq)]
pub struct Object<'a> {
    entries: Vec<(&'a str, Value<'a>)>,
}

/// The mapping that a list of entries with distinct keys describes.
pub open spec fn entries_map<'a>(s: Seq<(&'a str, Value<'a>)>) -> Map<Seq<char>, Value<'a>>
    decreases s.len(),
{
    if s.len() == 0 {
        Map::empty()
    } else {
        entries_map(s.drop_last()).insert(s.last().0@, s.last().1)
    }
}

pub open spec fn keys_distinct<'a>(s: Seq<(&'a str, Value<'a>)>) -> bool {
    forall|i: int, j: int| 0 <= i < j < s.len() ==> s[i].0@ != s[j].0@
}

/// The keys of the mapping that a list of entries describes are exactly the
/// keys that occur in the list.
pub proof fn lemma_entries_map_dom<'a>(s: Seq<(&'a str, Value<'a>)>)
    ensures
        entries_map(s).dom().finite(),
        forall|k: Seq<char>|
            entries_map(s).contains_key(k) <==> exists|i: int| 0 <= i < s.len() && s[i].0@ == k,
    decreases s.len(),
{
    if s.len() > 0 {
        lemma_entries_map_dom(s.drop_last());
        assert forall|k: Seq<char>|
            entries_map(s).contains_key(k) implies exists|i: int| 0 <= i < s.len() && s[i].0@ == k by {
            if k != s.last().0@ {
                let i = choose|i: int| 0 <= i < s.len() - 1 && s.drop_last()[i].0@ == k;
                assert(s[i].0@ == k);
            } else {
                assert(s[s.len() - 1].0@ == k);
            }
        }
        assert forall|k: Seq<char>|
            (exists|i: int| 0 <= i < s.len() && s[i].0@ == k) implies entries_map(s).contains_key(
                k,
            ) by {
            let i = choose|i: int| 0 <= i < s.len() && s[i].0@ == k;
            if i < s.len() - 1 {
                assert(s.drop_last()[i].0@ == k);
            }
        }
    }
}

/// In the mapping that a list of entries describes, a key holds the value of
/// its last entry: a later entry with an equal key overwrites earlier ones.
pub proof fn lemma_last_entry_wins<'a>(s: Seq<(&'a str, Value<'a>)>, i: int)
    requires
        0 <= i < s.len(),
        forall|j: int| i < j < s.len() ==> s[j].0@ != s[i].0@,
    ensures
        entries_map(s).contains_key(s[i].0@),
        entries_map(s)[s[i].0@] == s[i].1,
    decreases s.len(),
{
    if i < s.len() - 1 {
        let rest = s.drop_last();
        assert(forall|j: int| i < j < rest.len() ==> rest[j] == s[j]);
        lemma_last_entry_wins(rest, i);
    }
}

proof fn lemma_entries_map_len<'a>(s: Seq<(&'a str, Value<'a>)>)
    requires
        keys_distinct(s),
    ensures
        entries_map(s).len() == s.len(),
    decreases s.len(),
{
    if s.len() > 0 {
        let rest = s.drop_last();
        assert(keys_distinct(rest));
        lemma_entries_map_len(rest);
        lemma_entries_map_dom(rest);
        assert(!entries_map(rest).contains_key(s.last().0@));
    }
}

proof fn lemma_entries_map_update<'a>(s: Seq<(&'a str, Value<'a>)>, i: int, v: Value<'a>)
    requires
        keys_distinct(s),
        0 <= i < s.len(),
    ensures
        entries_map(s.update(i, (s[i].0, v))) == entries_map(s).insert(s[i].0@, v),
    decreases s.len(),
{
    let t = s.update(i, (s[i].0, v));
    if i == s.len() - 1 {
        assert(t.drop_last() =~= s.drop_last());
        assert(entries_map(t) =~= entries_map(s).insert(s[i].0@, v));
    } else {
        let rest = s.drop_last();
        assert(keys_distinct(rest));
        lemma_entries_map_update(rest, i, v);
        assert(t.drop_last() =~= rest.update(i, (s[i].0, v)));
        assert(s.last().0@ != s[i].0@);
        assert(entries_map(t) =~= entries_map(s).insert(s[i].0@, v));
    }
}

/// Whether two strings hold the same characters, compared through their
/// UTF-8 bytes.
fn str_eq(a: &str, b: &str) -> (r: bool)
    ensures
        r == (a@ == b@),
{
    let x = a.as_bytes();
    let y = b.as_bytes();
    proof {
        encode_utf8_decode_utf8(a@);
        encode_utf8_decode_utf8(b@);
    }
    if x.len() != y.len() {
        return false;
    }
    let mut i: usize = 0;
    while i < x.len()
        invariant
            x@ == encode_utf8(a@),
            y@ == encode_utf8(b@),
            decode_utf8(x@) == a@,
            decode_utf8(y@) == b@,
            x@.len() == y@.len(),
            0 <= i <= x@.len(),
            x@.subrange(0, i as int) == y@.subrange(0, i as int),
        decreases x@.len() - i,
    {
        if x[i] != y[i] {
            assert(x@[i as int] != y@[i as int]);
            return false;
        }
        assert(x@.subrange(0, i + 1) =~= x@.subrange(0, i as int).push(x@[i as int]));
        assert(y@.subrange(0, i + 1) =~= y@.subrange(0, i as int).push(y@[i as int]));
        i += 1;
    }
    assert(x@ =~= x@.subrange(0, i as int));
    assert(y@ =~= y@.subrange(0, i as int));
    true
}

impl<'a> View for Object<'a> {
    type V = Map<Seq<char>, Value<'a>>;

    closed spec fn view(&self) -> Map<Seq<char>, Value<'a>> {
        entries_map(self.entries@)
    }
}

impl<'a> Object<'a> {
    #[verifier::type_invariant]
    closed spec fn keys_unique(&self) -> bool {
        keys_distinct(self.entries@)
    }

    /// An empty object.
    pub fn new() -> (r: Self)
        ensures
            r@ == Map::<Seq<char>, Value<'a>>::empty(),
    {
        Object { entries: Vec::new() }
    }

    /// An empty object with room for `capacity` entries.
    pub fn with_capacity(capacity: usize) -> (r: Self)
        ensures
            r@ == Map::<Seq<char>, Value<'a>>::empty(),
    {
        Object { entries: Vec::with_capacity(capacity) }
    }

    /// Where the entry for `key` stands, if there is one.
    fn position(&self, key: &str) -> (r: Option<usize>)
        ensures
            match r {
                Some(i) => i < self.entries@.len() && self.entries@[i as int].0@ == key@,
                None => forall|j: int|
                    0 <= j < self.entries@.len() ==> self.entries@[j].0@ != key@,
            },
    {
        let mut i: usize = 0;
        while i < self.entries.len()
            invariant
                0 <= i <= self.entries@.len(),
                forall|j: int| 0 <= j < i ==> self.entries@[j].0@ != key@,
            decreases self.entries@.len() - i,
        {
            if str_eq(self.entries[i].0, key) {
                return Some(i);
            }
            i += 1;
        }
        None
    }

    /// The number of distinct keys.
    pub fn len(&self) -> (r: usize)
        ensures
            r == self@.len(),
    {
        proof {
            use_type_invariant(self);
            lemma_entries_map_len(self.entries@);
        }
        self.entries.len()
    }

    /// Whether the object has no entries.
    pub fn is_empty(&self) -> (r: bool)
        ensures
            r == (self@.len() == 0),
    {
        self.len() == 0
    }

    /// The value stored under `key`, if any.
    pub fn get(&self, key: &str) -> (r: Option<&Value<'a>>)
        ensures
            match r {
                Some(v) => self@.contains_key(key@) && *v == self@[key@],
                None => !self@.contains_key(key@),
            },
    {
        proof {
            use_type_invariant(self);
            lemma_entries_map_dom(self.entries@);
        }
        match self.position(key) {
            Some(i) => {
                proof {
                    let s = self.entries@;
                    assert(s.update(i as int, (s[i as int].0, s[i as int].1)) =~= s);
                    lemma_entries_map_update(s, i as int, s[i as int].1);
                }
                Some(&self.entries[i].1)
            },
            None => None,
        }
    }

    /// Stores `value` under `key`, replacing the value of an equal key that is
    /// already present (the stored key is kept).
    pub fn insert(&mut self, key: &'a str, value: Value<'a>)
        ensures
            final(self)@ == old(self)@.insert(key@, value),
    {
        proof {
            use_type_invariant(&*self);
        }
        // The entries are moved out and put back whole: the invariant on keys
        // rules out mutating the field in place through a method call.
        match self.position(key) {
            Some(i) => {
                let stored = self.entries[i].0;
                proof {
                    lemma_entries_map_update(self.entries@, i as int, value);
                    assert(keys_distinct(self.entries@.update(i as int, (stored, value))));
                }
                let mut taken = Object::new();
                core::mem::swap(self, &mut taken);
                let mut entries = taken.entries;
                entries[i] = (stored, value);
                *self = Object { entries };
            },
            None => {
                let mut taken = Object::new();
                core::mem::swap(self, &mut taken);
                let mut entries = taken.entries;
                proof {
                    assert(entries@.push((key, value)).drop_last() =~= entries@);
                }
                entries.push((key, value));
                *self = Object { entries };
            },
        }
    }
}

} // verus!
