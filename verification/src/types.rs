//! Wire data of operation events: outcome, impact, target and parameters.
use vstd::prelude::*;

use crate::text::{
    lemma_text_less_asymmetric, lemma_text_less_irreflexive, lemma_text_less_total,
    lemma_text_less_transitive, text_less, text_precedes,
};

verus! {

/// Result of an operation.
#[derive(Debug, Clone, Copy)]
pub enum OperationOutcome {
    Success,
    Failure,
    Partial,
    Canceled,
    TimedOut,
}

/// Impact level of an operation.
#[derive(Debug, Clone, Copy)]
pub enum OperationImpact {
    Info,
    Warning,
    Error,
}

/// Optional business target of an operation.
#[derive(Debug, Clone)]
pub struct OperationTarget {
    pub kind: String,
    pub id: String,
    pub display_name: Option<String>,
    pub ownership: Option<String>,
}

/// A basic parameter value that may enter an audit event.
///
/// A number is held as the bit pattern of its IEEE 754 binary64 value
/// (`f64::to_bits`), so that it passes through the library unchanged.
#[derive(Debug)]
pub enum ParameterValue {
    String(String),
    Number(u64),
    Boolean(bool),
}

impl Clone for ParameterValue {
    /// An equal value.
    fn clone(&self) -> (r: ParameterValue)
        ensures
            r == *self,
    {
        match self {
            ParameterValue::String(s) => ParameterValue::String(s.clone()),
            ParameterValue::Number(n) => ParameterValue::Number(*n),
            ParameterValue::Boolean(b) => ParameterValue::Boolean(*b),
        }
    }
}

/// The parameters of an operation event: a map from distinct keys to values,
/// kept in increasing order of their keys.
#[derive(Debug)]
pub struct Parameters {
    entries: Vec<(String, ParameterValue)>,
}

/// No key occurs twice in `entries`.
pub open spec fn distinct_keys(entries: Seq<(String, ParameterValue)>) -> bool {
    forall|i: int, j: int|
        0 <= i < entries.len() && 0 <= j < entries.len() && i != j ==> #[trigger] entries[i].0@
            != #[trigger] entries[j].0@
}

/// The keys of `entries` increase strictly (in the order of `text_less`).
pub open spec fn sorted_keys(entries: Seq<(String, ParameterValue)>) -> bool {
    forall|i: int, j: int|
        0 <= i < j < entries.len() ==> text_less(#[trigger] entries[i].0@, #[trigger] entries[j].0@)
}

/// Keys in strictly increasing order are distinct.
pub proof fn lemma_sorted_keys_are_distinct(entries: Seq<(String, ParameterValue)>)
    requires
        sorted_keys(entries),
    ensures
        distinct_keys(entries),
{
    assert forall|i: int, j: int|
        0 <= i < entries.len() && 0 <= j < entries.len() && i != j implies #[trigger] entries[i].0@
        != #[trigger] entries[j].0@ by {
        lemma_text_less_irreflexive(entries[i].0@);
        if i < j {
            assert(text_less(entries[i].0@, entries[j].0@));
        } else {
            assert(text_less(entries[j].0@, entries[i].0@));
        }
    }
}

/// The position of `key` among the keys of `entries`, if it is there.
pub open spec fn key_position(entries: Seq<(String, ParameterValue)>, key: Seq<char>) -> Option<
    int,
> {
    if exists|i: int| 0 <= i < entries.len() && #[trigger] entries[i].0@ == key {
        Some(choose|i: int| 0 <= i < entries.len() && #[trigger] entries[i].0@ == key)
    } else {
        None
    }
}

/// The value that `entries` holds for `key`.
pub open spec fn lookup(entries: Seq<(String, ParameterValue)>, key: Seq<char>) -> Option<
    ParameterValue,
> {
    match key_position(entries, key) {
        Some(i) => Some(entries[i].1),
        None => None,
    }
}

/// `p` is where `key` goes among the keys of `entries`: after every smaller
/// key and before every greater one.
pub open spec fn is_insert_position(
    entries: Seq<(String, ParameterValue)>,
    key: Seq<char>,
    p: int,
) -> bool {
    &&& 0 <= p <= entries.len()
    &&& forall|k: int| 0 <= k < p ==> text_less(#[trigger] entries[k].0@, key)
    &&& forall|k: int| p <= k < entries.len() ==> text_less(key, #[trigger] entries[k].0@)
}

/// The entries after setting `value` under `key`: an existing entry for the
/// key has its value replaced in place, otherwise the entry goes in at the
/// place that keeps the keys in order.
pub open spec fn inserted(
    entries: Seq<(String, ParameterValue)>,
    key: String,
    value: ParameterValue,
) -> Seq<(String, ParameterValue)> {
    match key_position(entries, key@) {
        Some(i) => entries.update(i, (key, value)),
        None => entries.insert(
            choose|p: int| is_insert_position(entries, key@, p),
            (key, value),
        ),
    }
}

proof fn lemma_key_position_at(entries: Seq<(String, ParameterValue)>, key: Seq<char>, i: int)
    requires
        distinct_keys(entries),
        0 <= i < entries.len(),
        entries[i].0@ == key,
    ensures
        key_position(entries, key) == Some(i),
{
    let c = choose|c: int| 0 <= c < entries.len() && #[trigger] entries[c].0@ == key;
    assert(entries[c].0@ == entries[i].0@);
}

proof fn lemma_insert_position_unique(
    entries: Seq<(String, ParameterValue)>,
    key: Seq<char>,
    p: int,
)
    requires
        is_insert_position(entries, key, p),
    ensures
        (choose|q: int| is_insert_position(entries, key, q)) == p,
{
    let q = choose|q: int| is_insert_position(entries, key, q);
    assert(is_insert_position(entries, key, q));
    if q < p {
        lemma_text_less_asymmetric(entries[q].0@, key);
        assert(text_less(entries[q].0@, key));
        assert(text_less(key, entries[q].0@));
    } else if q > p {
        lemma_text_less_asymmetric(entries[p].0@, key);
        assert(text_less(entries[p].0@, key));
        assert(text_less(key, entries[p].0@));
    }
}

proof fn lemma_insert_keeps_order(
    entries: Seq<(String, ParameterValue)>,
    key: String,
    value: ParameterValue,
    p: int,
)
    requires
        sorted_keys(entries),
        is_insert_position(entries, key@, p),
    ensures
        sorted_keys(entries.insert(p, (key, value))),
{
    let n = entries.insert(p, (key, value));
    assert forall|i: int, j: int| 0 <= i < j < n.len() implies text_less(
        #[trigger] n[i].0@,
        #[trigger] n[j].0@,
    ) by {
        if j < p {
            assert(n[i] == entries[i] && n[j] == entries[j]);
        } else if j == p {
            assert(n[i] == entries[i]);
        } else if i < p {
            assert(n[i] == entries[i] && n[j] == entries[j - 1]);
            assert(text_less(entries[i].0@, entries[j - 1].0@));
        } else if i == p {
            assert(n[j] == entries[j - 1]);
        } else {
            assert(n[i] == entries[i - 1] && n[j] == entries[j - 1]);
            assert(text_less(entries[i - 1].0@, entries[j - 1].0@));
        }
    }
}

impl Clone for Parameters {
    /// An equal copy.
    fn clone(&self) -> (r: Parameters)
        ensures
            r@ == self@,
    {
        proof {
            use_type_invariant(self);
        }
        let mut entries: Vec<(String, ParameterValue)> = Vec::new();
        let mut i: usize = 0;
        while i < self.entries.len()
            invariant
                i <= self.entries.len(),
                entries@.len() == i,
                forall|k: int| 0 <= k < i ==> #[trigger] entries@[k] == self.entries@[k],
            decreases self.entries.len() - i,
        {
            let key = self.entries[i].0.clone();
            let value = self.entries[i].1.clone();
            entries.push((key, value));
            i = i + 1;
        }
        assert(entries@ =~= self.entries@);
        Parameters { entries }
    }
}

impl View for Parameters {
    type V = Seq<(String, ParameterValue)>;

    closed spec fn view(&self) -> Seq<(String, ParameterValue)> {
        self.entries@
    }
}

impl Parameters {
    #[verifier::type_invariant]
    closed spec fn keys_are_sorted(self) -> bool {
        sorted_keys(self.entries@)
    }

    /// No parameters.
    pub fn new() -> (r: Parameters)
        ensures
            r@ == Seq::<(String, ParameterValue)>::empty(),
    {
        Parameters { entries: Vec::new() }
    }

    /// Number of parameters, one per distinct key.
    pub fn len(&self) -> (r: usize)
        ensures
            r == self@.len(),
    {
        self.entries.len()
    }

    /// The entries, in increasing order of their keys.
    pub fn entries(&self) -> (r: &Vec<(String, ParameterValue)>)
        ensures
            r@ == self@,
            sorted_keys(r@),
            distinct_keys(r@),
    {
        proof {
            use_type_invariant(self);
            lemma_sorted_keys_are_distinct(self.entries@);
        }
        &self.entries
    }

    /// Sets the value for `key`, replacing the value that it had.
    pub fn insert(&mut self, key: String, value: ParameterValue)
        ensures
            final(self)@ == inserted(old(self)@, key, value),
    {
        proof {
            use_type_invariant(&*self);
        }
        let mut entries: Vec<(String, ParameterValue)> = Vec::new();
        std::mem::swap(&mut entries, &mut self.entries);
        let ghost before = entries@;
        proof {
            lemma_sorted_keys_are_distinct(before);
        }
        let mut p: usize = 0;
        while p < entries.len() && text_precedes(entries[p].0.as_str(), key.as_str())
            invariant
                entries@ == before,
                p <= entries.len(),
                forall|k: int| 0 <= k < p ==> text_less(#[trigger] before[k].0@, key@),
            decreases entries.len() - p,
        {
            p = p + 1;
        }
        if p < entries.len() && entries[p].0 == key {
            proof {
                lemma_key_position_at(before, key@, p as int);
            }
            entries.set(p, (key, value));
            assert forall|i: int, j: int| 0 <= i < j < entries@.len() implies text_less(
                #[trigger] entries@[i].0@,
                #[trigger] entries@[j].0@,
            ) by {
                assert(entries@[i].0@ == before[i].0@);
                assert(entries@[j].0@ == before[j].0@);
            }
        } else {
            proof {
                assert forall|k: int| p <= k < before.len() implies text_less(
                    key@,
                    #[trigger] before[k].0@,
                ) by {
                    lemma_text_less_total(before[p as int].0@, key@);
                    if k > p {
                        lemma_text_less_transitive(key@, before[p as int].0@, before[k].0@);
                    }
                }
                assert(is_insert_position(before, key@, p as int));
                assert forall|k: int| 0 <= k < before.len() implies #[trigger] before[k].0@ != key@ by {
                    if k < p {
                        lemma_text_less_irreflexive(key@);
                    } else {
                        lemma_text_less_irreflexive(key@);
                    }
                }
                assert(key_position(before, key@) is None);
                lemma_insert_position_unique(before, key@, p as int);
                lemma_insert_keeps_order(before, key, value, p as int);
            }
            entries.insert(p, (key, value));
        }
        self.entries = entries;
    }
}

/// Setting a parameter keeps the keys sorted, makes the key hold the new
/// value, leaves the value of every other key as it was, and adds an entry
/// only for a new key.
pub proof fn lemma_insert_sets_only_its_key(
    entries: Seq<(String, ParameterValue)>,
    key: String,
    value: ParameterValue,
    other: Seq<char>,
)
    requires
        sorted_keys(entries),
    ensures
        sorted_keys(inserted(entries, key, value)),
        lookup(inserted(entries, key, value), key@) == Some(value),
        other != key@ ==> lookup(inserted(entries, key, value), other) == lookup(entries, other),
        inserted(entries, key, value).len() == entries.len() + (if key_position(
            entries,
            key@,
        ) is Some {
            0int
        } else {
            1int
        }),
{
    lemma_sorted_keys_are_distinct(entries);
    let r = inserted(entries, key, value);
    match key_position(entries, key@) {
        Some(p) => {
            assert(entries[p].0@ == key@);
            assert forall|i: int, j: int| 0 <= i < j < r.len() implies text_less(
                #[trigger] r[i].0@,
                #[trigger] r[j].0@,
            ) by {
                assert(r[i].0@ == entries[i].0@);
                assert(r[j].0@ == entries[j].0@);
            }
            lemma_sorted_keys_are_distinct(r);
            lemma_key_position_at(r, key@, p);
            if other != key@ {
                if exists|i: int| 0 <= i < entries.len() && #[trigger] entries[i].0@ == other {
                    let i = choose|i: int| 0 <= i < entries.len() && #[trigger] entries[i].0@ == other;
                    lemma_key_position_at(entries, other, i);
                    assert(r[i] == entries[i]);
                    lemma_key_position_at(r, other, i);
                } else {
                    assert forall|j: int| 0 <= j < r.len() implies #[trigger] r[j].0@ != other by {
                        if j != p {
                            assert(r[j] == entries[j]);
                        }
                    }
                }
            }
        },
        None => {
            assert forall|i: int| 0 <= i < entries.len() implies #[trigger] entries[i].0@ != key@ by {}
            let p = choose|q: int| is_insert_position(entries, key@, q);
            assert(exists|q: int| is_insert_position(entries, key@, q)) by {
                let q = insert_position_witness(entries, key@);
            }
            lemma_insert_keeps_order(entries, key, value, p);
            lemma_sorted_keys_are_distinct(r);
            assert(r[p].0@ == key@);
            lemma_key_position_at(r, key@, p);
            if other != key@ {
                if exists|i: int| 0 <= i < entries.len() && #[trigger] entries[i].0@ == other {
                    let i = choose|i: int| 0 <= i < entries.len() && #[trigger] entries[i].0@ == other;
                    lemma_key_position_at(entries, other, i);
                    if i < p {
                        assert(r[i] == entries[i]);
                        lemma_key_position_at(r, other, i);
                    } else {
                        assert(r[i + 1] == entries[i]);
                        lemma_key_position_at(r, other, i + 1);
                    }
                } else {
                    assert forall|j: int| 0 <= j < r.len() implies #[trigger] r[j].0@ != other by {
                        if j < p {
                            assert(r[j] == entries[j]);
                        } else if j > p {
                            assert(r[j] == entries[j - 1]);
                        }
                    }
                }
            }
        },
    }
}

/// Where a key that `entries` lacks goes among its sorted keys.
proof fn insert_position_witness(entries: Seq<(String, ParameterValue)>, key: Seq<char>) -> (p: int)
    requires
        sorted_keys(entries),
        forall|i: int| 0 <= i < entries.len() ==> #[trigger] entries[i].0@ != key,
    ensures
        is_insert_position(entries, key, p),
    decreases entries.len(),
{
    if entries.len() == 0 {
        0
    } else {
        let init = entries.drop_last();
        assert forall|i: int, j: int| 0 <= i < j < init.len() implies text_less(
            #[trigger] init[i].0@,
            #[trigger] init[j].0@,
        ) by {
            assert(init[i] == entries[i] && init[j] == entries[j]);
        }
        assert forall|i: int| 0 <= i < init.len() implies #[trigger] init[i].0@ != key by {
            assert(init[i] == entries[i]);
        }
        let q = insert_position_witness(init, key);
        let last = entries.len() - 1;
        lemma_text_less_total(entries[last].0@, key);
        if text_less(entries[last].0@, key) {
            assert forall|k: int| 0 <= k < entries.len() implies text_less(
                #[trigger] entries[k].0@,
                key,
            ) by {
                if k < last {
                    assert(entries[k] == init[k]);
                    if !text_less(entries[k].0@, key) {
                        assert(text_less(entries[k].0@, entries[last].0@));
                        lemma_text_less_transitive(entries[k].0@, entries[last].0@, key);
                    }
                }
            }
            entries.len() as int
        } else {
            assert forall|k: int| 0 <= k < q implies text_less(#[trigger] entries[k].0@, key) by {
                assert(entries[k] == init[k]);
            }
            assert forall|k: int| q <= k < entries.len() implies text_less(
                key,
                #[trigger] entries[k].0@,
            ) by {
                if k < last {
                    assert(entries[k] == init[k]);
                }
            }
            q
        }
    }
}

} // verus!
