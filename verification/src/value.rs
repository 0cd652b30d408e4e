//! Runtime values of the dialogue state and the key/value state map.

use vstd::prelude::*;

verus! {

/// A value that the state map can hold.
///
/// `Float` carries the IEEE-754 bit pattern of a 64-bit float: the library
/// stores and returns such a value unchanged and never does arithmetic on it.
#[derive(Debug, PartialEq, Eq)]
pub enum StateValue {
    Empty,
    Boolean(bool),
    Int(i64),
    Float(u64),
    String(String),
    Tuple(Vec<StateValue>),
}

/// The mathematical content of a [`StateValue`].
pub enum ValueView {
    Empty,
    Boolean(bool),
    Int(i64),
    Float(u64),
    Str(Seq<char>),
    Tuple(Seq<ValueView>),
}

/// All bits of a 64-bit float but its sign.
pub const FLOAT_MAGNITUDE_MASK: u64 = 0x7fff_ffff_ffff_ffffu64;

impl ValueView {
    /// Boolean coercion: `Empty`, `false`, the integer 0, a float zero of
    /// either sign and the empty string are false; every other value is true.
    pub open spec fn truthy(self) -> bool {
        match self {
            ValueView::Empty => false,
            ValueView::Boolean(b) => b,
            ValueView::Int(i) => i != 0,
            ValueView::Float(bits) => bits & FLOAT_MAGNITUDE_MASK != 0,
            ValueView::Str(s) => s.len() != 0,
            ValueView::Tuple(_) => true,
        }
    }

    /// A scalar is any value but `Empty` and a tuple.
    pub open spec fn is_scalar(self) -> bool {
        !(self is Empty) && !(self is Tuple)
    }
}

impl View for StateValue {
    type V = ValueView;

    open spec fn view(&self) -> ValueView
        decreases self,
    {
        match self {
            StateValue::Empty => ValueView::Empty,
            StateValue::Boolean(b) => ValueView::Boolean(*b),
            StateValue::Int(i) => ValueView::Int(*i),
            StateValue::Float(bits) => ValueView::Float(*bits),
            StateValue::String(s) => ValueView::Str(s@),
            StateValue::Tuple(items) => ValueView::Tuple(
                Seq::new(
                    items@.len(),
                    |i: int|
                        if 0 <= i < items@.len() {
                            items@[i].view()
                        } else {
                            ValueView::Empty
                        },
                ),
            ),
        }
    }
}

impl StateValue {
    /// A copy of the value with the same content.
    pub fn copy(&self) -> (r: StateValue)
        ensures
            r@ == self@,
        decreases self,
    {
        match self {
            StateValue::Empty => StateValue::Empty,
            StateValue::Boolean(b) => StateValue::Boolean(*b),
            StateValue::Int(i) => StateValue::Int(*i),
            StateValue::Float(bits) => StateValue::Float(*bits),
            StateValue::String(s) => StateValue::String(s.clone()),
            StateValue::Tuple(items) => {
                let mut out: Vec<StateValue> = Vec::new();
                let mut i: usize = 0;
                while i < items.len()
                    invariant
                        self is Tuple,
                        self->Tuple_0 == *items,
                        i <= items.len(),
                        out@.len() == i,
                        forall|j: int| 0 <= j < i ==> out@[j]@ == items@[j]@,
                    decreases items.len() - i,
                {
                    out.push(items[i].copy());
                    i += 1;
                }
                let r = StateValue::Tuple(out);
                assert(r@->Tuple_0 =~= self@->Tuple_0);
                r
            },
        }
    }

    /// The boolean coercion of the value.
    pub fn truthy(&self) -> (b: bool)
        ensures
            b == self@.truthy(),
    {
        match self {
            StateValue::Empty => false,
            StateValue::Boolean(b) => *b,
            StateValue::Int(i) => *i != 0,
            StateValue::Float(bits) => *bits & FLOAT_MAGNITUDE_MASK != 0,
            StateValue::String(s) => !s.as_str().is_empty(),
            StateValue::Tuple(_) => true,
        }
    }

    /// Whether the value is `Empty`.
    pub fn is_empty(&self) -> (b: bool)
        ensures
            b == (self@ is Empty),
    {
        match self {
            StateValue::Empty => true,
            _ => false,
        }
    }
}

/// What a read of `key` yields: the stored value, or `Empty` for a missing key.
pub open spec fn lookup(m: Map<Seq<char>, ValueView>, key: Seq<char>) -> ValueView {
    if m.dom().contains(key) {
        m[key]
    } else {
        ValueView::Empty
    }
}

/// The map after a write of `value` under `key`: writing `Empty` removes the key.
pub open spec fn store(m: Map<Seq<char>, ValueView>, key: Seq<char>, value: ValueView) -> Map<
    Seq<char>,
    ValueView,
> {
    if value is Empty {
        m.remove(key)
    } else {
        m.insert(key, value)
    }
}

/// One binding of the state map.
#[derive(Debug)]
struct Entry {
    key: String,
    value: StateValue,
}

/// The mutable key/value state that scripts and the embedder read and write.
///
/// Its view is a map from keys to values; no key is bound to `Empty`.
#[derive(Debug)]
pub struct State {
    entries: Vec<Entry>,
}

/// Some entry has the key.
spec fn has_key(es: Seq<Entry>, key: Seq<char>) -> bool {
    exists|i: int| 0 <= i < es.len() && #[trigger] es[i].key@ == key
}

/// The position of an entry that has the key.
spec fn position_of(es: Seq<Entry>, key: Seq<char>) -> int {
    choose|i: int| 0 <= i < es.len() && #[trigger] es[i].key@ == key
}

/// No two entries have the same key.
spec fn distinct_keys(es: Seq<Entry>) -> bool {
    forall|i: int, j: int|
        0 <= i < es.len() && 0 <= j < es.len() && i != j ==> #[trigger] es[i].key@
            != #[trigger] es[j].key@
}

/// No entry holds `Empty`.
spec fn no_empty_value(es: Seq<Entry>) -> bool {
    forall|i: int| 0 <= i < es.len() ==> !(#[trigger] es[i].value@ is Empty)
}

/// The map that the entries stand for.
spec fn entries_map(es: Seq<Entry>) -> Map<Seq<char>, ValueView> {
    Map::new(|k: Seq<char>| has_key(es, k), |k: Seq<char>| es[position_of(es, k)].value@)
}

proof fn lemma_entry_found(es: Seq<Entry>, i: int)
    requires
        distinct_keys(es),
        0 <= i < es.len(),
    ensures
        has_key(es, es[i].key@),
        position_of(es, es[i].key@) == i,
        entries_map(es).dom().contains(es[i].key@),
        entries_map(es)[es[i].key@] == es[i].value@,
{
}

proof fn lemma_entries_push(es: Seq<Entry>, e: Entry)
    requires
        distinct_keys(es),
        !has_key(es, e.key@),
    ensures
        distinct_keys(es.push(e)),
        entries_map(es.push(e)) == entries_map(es).insert(e.key@, e.value@),
{
    let es2 = es.push(e);
    assert(distinct_keys(es2)) by {
        assert forall|i: int, j: int|
            0 <= i < es2.len() && 0 <= j < es2.len() && i != j implies #[trigger] es2[i].key@
            != #[trigger] es2[j].key@ by {
            if i < es.len() && j < es.len() {
                assert(es[i].key@ != es[j].key@);
            } else if i < es.len() {
                assert(es[i].key@ == es2[i].key@);
            } else {
                assert(es[j].key@ == es2[j].key@);
            }
        }
    }
    let m1 = entries_map(es2);
    let m2 = entries_map(es).insert(e.key@, e.value@);
    assert forall|k: Seq<char>| m1.dom().contains(k) <==> m2.dom().contains(k) by {
        if has_key(es2, k) {
            let i = position_of(es2, k);
            if i < es.len() {
                assert(es[i].key@ == k);
            }
        }
        if has_key(es, k) {
            let i = position_of(es, k);
            assert(es2[i].key@ == k);
        }
        if k == e.key@ {
            assert(es2[es.len() as int].key@ == k);
        }
    }
    assert forall|k: Seq<char>| m1.dom().contains(k) implies m1[k] == m2[k] by {
        let i = position_of(es2, k);
        lemma_entry_found(es2, i);
        if i < es.len() {
            assert(es[i].key@ == k);
            lemma_entry_found(es, i);
        }
    }
    assert(m1 =~= m2);
}

proof fn lemma_entries_remove(es: Seq<Entry>, i: int)
    requires
        distinct_keys(es),
        0 <= i < es.len(),
    ensures
        distinct_keys(es.remove(i)),
        !has_key(es.remove(i), es[i].key@),
        entries_map(es.remove(i)) == entries_map(es).remove(es[i].key@),
{
    let es2 = es.remove(i);
    let key = es[i].key@;
    assert forall|a: int| 0 <= a < es2.len() implies #[trigger] es2[a] == es[if a < i {
        a
    } else {
        a + 1
    }] by {}
    assert(distinct_keys(es2)) by {
        assert forall|a: int, b: int|
            0 <= a < es2.len() && 0 <= b < es2.len() && a != b implies #[trigger] es2[a].key@
            != #[trigger] es2[b].key@ by {
            let a1 = if a < i { a } else { a + 1 };
            let b1 = if b < i { b } else { b + 1 };
            assert(es[a1].key@ != es[b1].key@);
        }
    }
    assert(!has_key(es2, key)) by {
        if has_key(es2, key) {
            let a = position_of(es2, key);
            let a1 = if a < i { a } else { a + 1 };
            assert(es[a1].key@ != es[i].key@);
        }
    }
    let m1 = entries_map(es2);
    let m2 = entries_map(es).remove(key);
    assert forall|k: Seq<char>| m1.dom().contains(k) <==> m2.dom().contains(k) by {
        if has_key(es2, k) {
            let a = position_of(es2, k);
            let a1 = if a < i { a } else { a + 1 };
            assert(es[a1].key@ == k);
        }
        if has_key(es, k) && k != key {
            let b = position_of(es, k);
            let b2 = if b < i { b } else { b - 1 };
            assert(es2[b2].key@ == k);
        }
    }
    assert forall|k: Seq<char>| m1.dom().contains(k) implies m1[k] == m2[k] by {
        let a = position_of(es2, k);
        lemma_entry_found(es2, a);
        let a1 = if a < i { a } else { a + 1 };
        assert(es[a1].key@ == k);
        lemma_entry_found(es, a1);
    }
    assert(m1 =~= m2);
}

impl View for State {
    type V = Map<Seq<char>, ValueView>;

    closed spec fn view(&self) -> Map<Seq<char>, ValueView> {
        entries_map(self.entries@)
    }
}

impl State {
    #[verifier::type_invariant]
    spec fn well_formed(&self) -> bool {
        distinct_keys(self.entries@) && no_empty_value(self.entries@)
    }

    /// The empty state.
    pub fn new() -> (r: State)
        ensures
            r@ == Map::<Seq<char>, ValueView>::empty(),
    {
        let r = State { entries: Vec::new() };
        assert(r@ =~= Map::<Seq<char>, ValueView>::empty());
        r
    }

    fn find(&self, key: &String) -> (r: Option<usize>)
        ensures
            match r {
                Some(i) => i < self.entries@.len() && self.entries@[i as int].key@ == key@,
                None => !has_key(self.entries@, key@),
            },
    {
        let mut i: usize = 0;
        while i < self.entries.len()
            invariant
                i <= self.entries@.len(),
                forall|j: int| 0 <= j < i ==> self.entries@[j].key@ != key@,
            decreases self.entries@.len() - i,
        {
            if self.entries[i].key == *key {
                return Some(i);
            }
            i += 1;
        }
        None
    }

    /// The value bound to `key`, or `Empty` where the key is missing; no
    /// key is bound to `Empty`.
    pub fn get(&self, key: &str) -> (r: StateValue)
        ensures
            r@ == lookup(self@, key@),
            r@ is Empty <==> !self@.dom().contains(key@),
    {
        proof {
            use_type_invariant(self);
        }
        let owned = key.to_owned();
        match self.find(&owned) {
            Some(i) => {
                proof {
                    lemma_entry_found(self.entries@, i as int);
                }
                self.entries[i].value.copy()
            },
            None => StateValue::Empty,
        }
    }

    /// Binds `key` to `value`; writing `Empty` removes the key.
    pub fn set(&mut self, key: &str, value: StateValue)
        ensures
            final(self)@ == store(old(self)@, key@, value@),
    {
        proof {
            use_type_invariant(&*self);
        }
        let owned = key.to_owned();
        let found = self.find(&owned);
        let mut taken = State { entries: Vec::new() };
        std::mem::swap(self, &mut taken);
        let mut entries = taken.entries;
        let ghost before = entries@;
        if let Some(i) = found {
            proof {
                lemma_entry_found(before, i as int);
                lemma_entries_remove(before, i as int);
            }
            entries.remove(i);
        }
        let ghost middle = entries@;
        assert(entries_map(middle) =~= entries_map(before).remove(key@));
        assert(!has_key(middle, key@));
        if !value.is_empty() {
            let entry = Entry { key: owned, value };
            proof {
                lemma_entries_push(middle, entry);
            }
            entries.push(entry);
            assert(entries_map(middle).insert(key@, value@) =~= entries_map(before).insert(
                key@,
                value@,
            ));
        }
        *self = State { entries };
    }

    /// A copy of the state with the same bindings.
    pub fn copy(&self) -> (r: State)
        ensures
            r@ == self@,
    {
        proof {
            use_type_invariant(self);
        }
        let mut entries: Vec<Entry> = Vec::new();
        let mut i: usize = 0;
        while i < self.entries.len()
            invariant
                i <= self.entries@.len(),
                entries@.len() == i,
                forall|j: int|
                    0 <= j < i ==> entries@[j].key@ == self.entries@[j].key@ && entries@[j].value@
                        == self.entries@[j].value@,
            decreases self.entries@.len() - i,
        {
            entries.push(
                Entry { key: self.entries[i].key.clone(), value: self.entries[i].value.copy() },
            );
            i += 1;
        }
        proof {
            let a = self.entries@;
            let b = entries@;
            assert forall|k: Seq<char>| has_key(a, k) <==> has_key(b, k) by {
                if has_key(a, k) {
                    let i = position_of(a, k);
                    assert(b[i].key@ == k);
                }
                if has_key(b, k) {
                    let i = position_of(b, k);
                    assert(a[i].key@ == k);
                }
            }
            assert(distinct_keys(b)) by {
                assert forall|i: int, j: int|
                    0 <= i < b.len() && 0 <= j < b.len() && i != j implies #[trigger] b[i].key@
                    != #[trigger] b[j].key@ by {
                    assert(a[i].key@ != a[j].key@);
                }
            }
            assert forall|k: Seq<char>| has_key(a, k) implies entries_map(a)[k] == entries_map(
                b,
            )[k] by {
                let i = position_of(a, k);
                lemma_entry_found(a, i);
                assert(b[i].key@ == k);
                lemma_entry_found(b, i);
            }
            assert(entries_map(a) =~= entries_map(b));
        }
        State { entries }
    }

    /// The keys of the state, one for each binding.
    pub fn keys(&self) -> (r: Vec<String>)
        ensures
            r@.len() == self@.dom().len(),
            forall|i: int| 0 <= i < r@.len() ==> self@.dom().contains(#[trigger] r@[i]@),
            forall|k: Seq<char>|
                self@.dom().contains(k) ==> exists|i: int| 0 <= i < r@.len() && #[trigger] r@[i]@ == k,
    {
        proof {
            use_type_invariant(self);
        }
        let mut out: Vec<String> = Vec::new();
        let mut i: usize = 0;
        while i < self.entries.len()
            invariant
                i <= self.entries@.len(),
                out@.len() == i,
                forall|j: int| 0 <= j < i ==> out@[j]@ == self.entries@[j].key@,
            decreases self.entries@.len() - i,
        {
            out.push(self.entries[i].key.clone());
            i += 1;
        }
        proof {
            let es = self.entries@;
            assert forall|k: Seq<char>| self@.dom().contains(k) implies exists|i: int|
                0 <= i < out@.len() && #[trigger] out@[i]@ == k by {
                let i = position_of(es, k);
                assert(out@[i]@ == k);
            }
            assert forall|i: int| 0 <= i < out@.len() implies self@.dom().contains(
                #[trigger] out@[i]@,
            ) by {
                lemma_entry_found(es, i);
            }
            lemma_key_count(es);
        }
        out
    }
}

/// A list of entries with distinct keys binds as many keys as it has entries.
proof fn lemma_key_count(es: Seq<Entry>)
    requires
        distinct_keys(es),
    ensures
        entries_map(es).dom().finite(),
        entries_map(es).dom().len() == es.len(),
    decreases es.len(),
{
    if es.len() == 0 {
        assert(entries_map(es).dom() =~= Set::<Seq<char>>::empty());
    } else {
        let last = es.last();
        let rest = es.drop_last();
        assert forall|i: int, j: int|
            0 <= i < rest.len() && 0 <= j < rest.len() && i != j implies #[trigger] rest[i].key@
            != #[trigger] rest[j].key@ by {
            assert(es[i].key@ != es[j].key@);
        }
        assert(!has_key(rest, last.key@)) by {
            if has_key(rest, last.key@) {
                let i = position_of(rest, last.key@);
                assert(es[i].key@ != es[es.len() - 1].key@);
            }
        }
        lemma_key_count(rest);
        assert(rest.push(last) =~= es);
        lemma_entries_push(rest, last);
        assert(entries_map(es).dom() =~= entries_map(rest).dom().insert(last.key@));
    }
}

} // verus!
