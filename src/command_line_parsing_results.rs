//! The result bag: a value per argument name, and the resolved action.

use vstd::prelude::*;
use crate::value::{Value, ValueModel};

verus! {

/// What a result bag holds: a value per argument name, and the resolved action.
pub struct StoreModel {
    pub values: Map<Seq<char>, ValueModel>,
    pub action: Option<Seq<char>>,
}

impl StoreModel {
    pub open spec fn with_value(self, name: Seq<char>, v: ValueModel) -> StoreModel {
        StoreModel { values: self.values.insert(name, v), action: self.action }
    }

    pub open spec fn with_action(self, action: Seq<char>) -> StoreModel {
        StoreModel { values: self.values, action: Some(action) }
    }

    pub open spec fn empty() -> StoreModel {
        StoreModel { values: Map::empty(), action: None }
    }
}

/// The map that a list of entries stands for; a later entry for a name shadows an earlier one.
pub open spec fn entries_map(entries: Seq<(String, Value)>) -> Map<Seq<char>, ValueModel>
    decreases entries.len(),
{
    if entries.len() == 0 {
        Map::empty()
    } else {
        entries_map(entries.drop_last()).insert(entries.last().0@, entries.last().1@)
    }
}

/// The last entry at `i` for `name` gives the value that the map holds for it.
proof fn lemma_entries_last(entries: Seq<(String, Value)>, name: Seq<char>, i: int)
    requires
        0 <= i < entries.len(),
        entries[i].0@ == name,
        forall|j: int| i < j < entries.len() ==> entries[j].0@ != name,
    ensures
        entries_map(entries).contains_key(name),
        entries_map(entries)[name] == entries[i].1@,
    decreases entries.len(),
{
    if i < entries.len() - 1 {
        lemma_entries_last(entries.drop_last(), name, i);
    }
}

/// A name that no entry carries is not in the map.
proof fn lemma_entries_absent(entries: Seq<(String, Value)>, name: Seq<char>)
    requires
        forall|j: int| 0 <= j < entries.len() ==> entries[j].0@ != name,
    ensures
        !entries_map(entries).contains_key(name),
    decreases entries.len(),
{
    if entries.len() > 0 {
        lemma_entries_absent(entries.drop_last(), name);
    }
}

/// A name that an entry carries is in the map.
proof fn lemma_entries_present(entries: Seq<(String, Value)>, name: Seq<char>, i: int)
    requires
        0 <= i < entries.len(),
        entries[i].0@ == name,
    ensures
        entries_map(entries).contains_key(name),
    decreases entries.len(),
{
    if i < entries.len() - 1 {
        lemma_entries_present(entries.drop_last(), name, i);
    }
}

/// Every name in the map is carried by an entry.
proof fn lemma_entries_dom(entries: Seq<(String, Value)>, name: Seq<char>)
    requires
        entries_map(entries).contains_key(name),
    ensures
        exists|j: int| 0 <= j < entries.len() && entries[j].0@ == name,
    decreases entries.len(),
{
    if entries.len() > 0 && entries.last().0@ != name {
        lemma_entries_dom(entries.drop_last(), name);
        let j = choose|j: int| 0 <= j < entries.len() - 1 && entries.drop_last()[j].0@ == name;
        assert(entries[j].0@ == name);
    }
}

/// No entry after `m` carries the name of entry `m`.
pub open spec fn is_last_entry(entries: Seq<(String, Value)>, m: int) -> bool {
    forall|j: int| m < j < entries.len() ==> (#[trigger] entries[j]).0@ != entries[m].0@
}

/// From any entry for `name`, the last entry for it.
proof fn lemma_last_entry(entries: Seq<(String, Value)>, name: Seq<char>, j: int) -> (m: int)
    requires
        0 <= j < entries.len(),
        entries[j].0@ == name,
    ensures
        j <= m < entries.len(),
        entries[m].0@ == name,
        is_last_entry(entries, m),
    decreases entries.len() - j,
{
    if exists|j2: int| j < j2 < entries.len() && entries[j2].0@ == name {
        let j2 = choose|j2: int| j < j2 < entries.len() && entries[j2].0@ == name;
        lemma_last_entry(entries, name, j2)
    } else {
        j
    }
}

/// The values found by a parse, by argument name, and the action that was resolved.
#[derive(Debug)]
pub struct CmdParsingResults {
    results: Vec<(String, Value)>,
    action: Option<String>,
}

/// Which type a stored value can be read as.
pub trait StoredValue: Sized {
    /// The stored value is of this type.
    spec fn is_kind(v: ValueModel) -> bool;

    /// `x` is what the stored value `v` reads as.
    spec fn reads(v: ValueModel, x: Self) -> bool;

    fn extract(v: &Value) -> (r: Option<&Self>)
        ensures
            match r {
                Some(x) => Self::is_kind(v@) && Self::reads(v@, *x),
                None => !Self::is_kind(v@),
            },
    ;
}

impl StoredValue for String {
    open spec fn is_kind(v: ValueModel) -> bool {
        v is Text
    }

    open spec fn reads(v: ValueModel, x: String) -> bool {
        v == ValueModel::Text(x@)
    }

    fn extract(v: &Value) -> (r: Option<&String>) {
        match v {
            Value::Text(s) => Some(s),
            _ => None,
        }
    }
}

impl StoredValue for i32 {
    open spec fn is_kind(v: ValueModel) -> bool {
        v is Integer
    }

    open spec fn reads(v: ValueModel, x: i32) -> bool {
        v == ValueModel::Integer(x)
    }

    fn extract(v: &Value) -> (r: Option<&i32>) {
        match v {
            Value::Integer(i) => Some(i),
            _ => None,
        }
    }
}

impl StoredValue for bool {
    open spec fn is_kind(v: ValueModel) -> bool {
        v is Flag
    }

    open spec fn reads(v: ValueModel, x: bool) -> bool {
        v == ValueModel::Flag(x)
    }

    fn extract(v: &Value) -> (r: Option<&bool>) {
        match v {
            Value::Flag(b) => Some(b),
            _ => None,
        }
    }
}

impl View for CmdParsingResults {
    type V = StoreModel;

    closed spec fn view(&self) -> StoreModel {
        StoreModel {
            values: entries_map(self.results@),
            action: match self.action {
                Some(a) => Some(a@),
                None => None,
            },
        }
    }
}

impl CmdParsingResults {
    /// An empty result bag with no action.
    pub fn new() -> (r: CmdParsingResults)
        ensures
            r@ == StoreModel::empty(),
    {
        let r = CmdParsingResults { results: Vec::new(), action: None };
        assert(r@.values =~= Map::empty());
        r
    }

    /// The names that hold a value, each once.
    pub fn keys(&self) -> (r: Vec<String>)
        ensures
            forall|k: Seq<char>|
                self@.values.contains_key(k) <==> exists|i: int| 0 <= i < r.len() && #[trigger] r[i]@ == k,
            forall|i: int, j: int| 0 <= i < j < r.len() ==> r[i]@ != r[j]@,
    {
        let ghost s = self.results@;
        let ghost mut src: Seq<int> = Seq::empty();
        let mut r: Vec<String> = Vec::new();
        let mut i: usize = 0;
        while i < self.results.len()
            invariant
                i <= self.results.len(),
                s == self.results@,
                src.len() == r.len(),
                forall|a: int|
                    0 <= a < r.len() ==> 0 <= #[trigger] src[a] < i && is_last_entry(s, src[a]) && r[a]@ == s[src[a]].0@,
                forall|m: int| 0 <= m < i && #[trigger] is_last_entry(s, m) ==> exists|a: int| 0 <= a < src.len() && src[a] == m,
                forall|a: int, b: int| 0 <= a < b < r.len() ==> r[a]@ != r[b]@,
            decreases self.results.len() - i,
        {
            if self.is_last(i) {
                let ghost old_r = r@;
                let ghost old_src = src;
                r.push(self.results[i].0.clone());
                proof {
                    src = src.push(i as int);
                    assert(src[src.len() - 1] == i);
                    assert forall|a: int| 0 <= a < r.len() implies 0 <= #[trigger] src[a] < i + 1 && is_last_entry(s, src[a])
                        && r[a]@ == s[src[a]].0@ by {
                        if a < r.len() - 1 {
                            assert(r[a] == old_r[a] && src[a] == old_src[a]);
                        }
                    }
                    assert forall|a: int, b: int| 0 <= a < b < r.len() implies r[a]@ != r[b]@ by {
                        if b == r.len() - 1 {
                            assert(r[a] == old_r[a] && src[a] == old_src[a]);
                            assert(old_src[a] < i);
                        } else {
                            assert(r[a] == old_r[a] && r[b] == old_r[b]);
                        }
                    }
                    assert forall|m: int| 0 <= m < i + 1 && #[trigger] is_last_entry(s, m) implies exists|a: int|
                        0 <= a < src.len() && src[a] == m by {
                        if m < i {
                            let a = choose|a: int| 0 <= a < old_src.len() && old_src[a] == m;
                            assert(src[a] == old_src[a]);
                        } else {
                            assert(src[src.len() - 1] == m);
                        }
                    }
                }
            }
            i = i + 1;
        }
        proof {
            assert forall|k: Seq<char>|
                self@.values.contains_key(k) <==> exists|i: int| 0 <= i < r.len() && #[trigger] r[i]@ == k by {
                if self@.values.contains_key(k) {
                    lemma_entries_dom(s, k);
                    let j = choose|j: int| 0 <= j < s.len() && s[j].0@ == k;
                    let m = lemma_last_entry(s, k, j);
                    assert(is_last_entry(s, m));
                    let a = choose|a: int| 0 <= a < src.len() && src[a] == m;
                    assert(r[a]@ == k);
                }
                if exists|i: int| 0 <= i < r.len() && #[trigger] r[i]@ == k {
                    let a = choose|a: int| 0 <= a < r.len() && #[trigger] r[a]@ == k;
                    assert(src[a] < s.len());
                    lemma_entries_present(s, k, src[a]);
                }
            }
        }
        r
    }

    /// Whether entry `i` is the last one for its name.
    fn is_last(&self, i: usize) -> (r: bool)
        requires
            i < self.results.len(),
        ensures
            r == is_last_entry(self.results@, i as int),
    {
        let mut j: usize = i + 1;
        while j < self.results.len()
            invariant
                i < j <= self.results.len(),
                forall|m: int| i < m < j ==> (#[trigger] self.results@[m]).0@ != self.results@[i as int].0@,
            decreases self.results.len() - j,
        {
            if self.results[j].0 == self.results[i].0 {
                return false;
            }
            j = j + 1;
        }
        true
    }

    /// Sets the resolved action, replacing any earlier one.
    pub fn set_action(&mut self, action: String)
        ensures
            final(self)@ == old(self)@.with_action(action@),
    {
        self.action = Some(action);
    }

    /// The resolved action; there must be one.
    pub fn get_action(&self) -> (r: String)
        requires
            self@.action is Some,
        ensures
            r@ == self@.action->0,
    {
        match &self.action {
            Some(a) => a.clone(),
            None => String::new(),
        }
    }

    /// Stores `value` under `name`, replacing any earlier value of that name.
    pub fn add_result_value(&mut self, name: String, value: Value)
        ensures
            final(self)@ == old(self)@.with_value(name@, value@),
    {
        self.results.push((name, value));
        proof {
            assert(self.results@.drop_last() =~= old(self).results@);
        }
    }

    /// The index of the entry that holds the value of `name`, if any.
    fn find(&self, name: &str) -> (r: Option<usize>)
        ensures
            match r {
                Some(i) => i < self.results.len() && self.results@[i as int].0@ == name@
                    && self@.values.contains_key(name@)
                    && self@.values[name@] == self.results@[i as int].1@,
                None => !self@.values.contains_key(name@),
            },
    {
        let key = name.to_owned();
        let mut i: usize = self.results.len();
        while i > 0
            invariant
                i <= self.results.len(),
                key@ == name@,
                forall|j: int| i <= j < self.results.len() ==> (#[trigger] self.results@[j]).0@ != name@,
            decreases i,
        {
            i = i - 1;
            if self.results[i].0 == key {
                proof {
                    lemma_entries_last(self.results@, name@, i as int);
                }
                return Some(i);
            }
        }
        proof {
            lemma_entries_absent(self.results@, name@);
        }
        None
    }

    /// Whether `name` holds a value.
    pub fn contains(&self, name: &str) -> (r: bool)
        ensures
            r == self@.values.contains_key(name@),
    {
        self.find(name).is_some()
    }

    /// The value of `name` read as a `T`; it must be there and of that type.
    pub fn get_value<T: StoredValue>(&self, name: &str) -> (r: &T)
        requires
            self@.values.contains_key(name@),
            T::is_kind(self@.values[name@]),
        ensures
            T::reads(self@.values[name@], *r),
    {
        let i = self.find(name).unwrap();
        T::extract(&self.results[i].1).unwrap()
    }

    /// The value of `name` read as a `T`, or `None` where it is missing or of another type.
    pub fn get_optional_value<T: StoredValue>(&self, name: &str) -> (r: Option<&T>)
        ensures
            match r {
                Some(x) => self@.values.contains_key(name@) && T::reads(self@.values[name@], *x),
                None => !self@.values.contains_key(name@) || !T::is_kind(self@.values[name@]),
            },
    {
        match self.find(name) {
            Some(i) => T::extract(&self.results[i].1),
            None => None,
        }
    }

    /// The flag stored under `name`; it must be there and be a flag.
    pub fn get_flag(&self, name: &str) -> (r: bool)
        requires
            self@.values.contains_key(name@),
            self@.values[name@] is Flag,
        ensures
            self@.values[name@] == ValueModel::Flag(r),
    {
        *self.get_value::<bool>(name)
    }
}

} // verus!
