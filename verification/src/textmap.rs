//! A map from strings to values, with a mathematical map as its model.
use vstd::prelude::*;
use vstd::string::*;

use crate::text::{chars_of, str_eq};

verus! {

/// A value that can be copied so that the copy means the same.
pub trait Duplicate: View + Sized {
    /// A copy with the same meaning.
    fn duplicate(&self) -> (copy: Self)
        ensures
            copy@ == self@,
    ;
}

impl Duplicate for String {
    fn duplicate(&self) -> (copy: Self) {
        String::from_str(self.as_str())
    }
}

impl Duplicate for Vec<(u32, u64)> {
    fn duplicate(&self) -> (copy: Self) {
        let mut copy: Vec<(u32, u64)> = Vec::new();
        let mut i: usize = 0;
        while i < self.len()
            invariant
                i <= self@.len(),
                copy@ == self@.subrange(0, i as int),
            decreases self@.len() - i,
        {
            copy.push(self[i]);
            proof {
                assert(copy@ =~= self@.subrange(0, i + 1));
            }
            i = i + 1;
        }
        proof {
            assert(copy@ =~= self@);
        }
        copy
    }
}

/// Whether one text comes before another: at the first place where they differ it has the lower
/// character, or it ends there.
pub open spec fn text_before(a: Seq<char>, b: Seq<char>) -> bool
    decreases a.len(),
{
    b.len() > 0 && (a.len() == 0 || (a[0] as int) < (b[0] as int) || (a[0] == b[0] && text_before(
        a.drop_first(),
        b.drop_first(),
    )))
}

/// No text comes before itself, and of two different texts exactly one comes before the other.
pub proof fn law_texts_are_ordered(a: Seq<char>, b: Seq<char>)
    ensures
        text_before(a, b) || text_before(b, a) <==> a != b,
        !(text_before(a, b) && text_before(b, a)),
    decreases a.len(),
{
    if a.len() > 0 && b.len() > 0 {
        law_texts_are_ordered(a.drop_first(), b.drop_first());
        assert(a =~= seq![a[0]] + a.drop_first());
        assert(b =~= seq![b[0]] + b.drop_first());
    } else if a.len() == 0 && b.len() == 0 {
        assert(a =~= b);
    }
}

/// What comes before a text comes before all that the text comes before.
pub proof fn law_text_order_is_transitive(a: Seq<char>, b: Seq<char>, c: Seq<char>)
    requires
        text_before(a, b),
        text_before(b, c),
    ensures
        text_before(a, c),
    decreases a.len(),
{
    if a.len() > 0 && a[0] == b[0] && b[0] == c[0] {
        law_text_order_is_transitive(a.drop_first(), b.drop_first(), c.drop_first());
    }
}

fn comes_before(a: &str, b: &str) -> (yes: bool)
    ensures
        yes == text_before(a@, b@),
{
    let x: Vec<char> = chars_of(a);
    let y: Vec<char> = chars_of(b);
    let mut i: usize = 0;
    proof {
        assert(x@.subrange(0, x@.len() as int) =~= x@);
        assert(y@.subrange(0, y@.len() as int) =~= y@);
    }
    while i < x.len() && i < y.len() && x[i] == y[i]
        invariant
            i <= x@.len(),
            i <= y@.len(),
            text_before(x@, y@) == text_before(
                x@.subrange(i as int, x@.len() as int),
                y@.subrange(i as int, y@.len() as int),
            ),
        decreases x@.len() - i,
    {
        proof {
            let p = x@.subrange(i as int, x@.len() as int);
            let q = y@.subrange(i as int, y@.len() as int);
            assert(p.drop_first() =~= x@.subrange(i + 1, x@.len() as int));
            assert(q.drop_first() =~= y@.subrange(i + 1, y@.len() as int));
        }
        i = i + 1;
    }
    if i >= y.len() {
        false
    } else if i >= x.len() {
        true
    } else {
        x[i] < y[i]
    }
}

/// A map keyed by strings, which it holds in ascending order. No key occurs twice.
#[derive(Debug)]
pub struct TextMap<V> {
    entries: Vec<(String, V)>,
}

spec fn distinct<V>(s: Seq<(String, V)>) -> bool {
    forall|i: int, j: int| 0 <= i < j < s.len() ==> (#[trigger] s[i]).0@ != (#[trigger] s[j]).0@
}

spec fn ascending<V>(s: Seq<(String, V)>) -> bool {
    forall|i: int, j: int|
        0 <= i < j < s.len() ==> text_before((#[trigger] s[i]).0@, (#[trigger] s[j]).0@)
}

proof fn lemma_ascending_differ<V>(s: Seq<(String, V)>)
    requires
        ascending(s),
    ensures
        distinct(s),
{
    assert forall|i: int, j: int| 0 <= i < j < s.len() implies (#[trigger] s[i]).0@ != (
    #[trigger] s[j]).0@ by {
        law_texts_are_ordered(s[i].0@, s[j].0@);
    }
}

spec fn holds<V>(s: Seq<(String, V)>, key: Seq<char>) -> bool {
    exists|i: int| 0 <= i < s.len() && (#[trigger] s[i]).0@ == key
}

spec fn place<V>(s: Seq<(String, V)>, key: Seq<char>) -> int {
    choose|i: int| 0 <= i < s.len() && (#[trigger] s[i]).0@ == key
}

spec fn entry_map<V: View>(s: Seq<(String, V)>) -> Map<Seq<char>, V::V> {
    Map::new(|key: Seq<char>| holds(s, key), |key: Seq<char>| s[place(s, key)].1@)
}

proof fn lemma_place<V>(s: Seq<(String, V)>, i: int)
    requires
        distinct(s),
        0 <= i < s.len(),
    ensures
        holds(s, s[i].0@),
        place(s, s[i].0@) == i,
{
    let p = place(s, s[i].0@);
    assert(s[i].0@ == s[i].0@);
    assert(0 <= p < s.len() && s[p].0@ == s[i].0@);
}

impl<V: View> View for TextMap<V> {
    type V = Map<Seq<char>, V::V>;

    closed spec fn view(&self) -> Map<Seq<char>, V::V> {
        entry_map(self.entries@)
    }
}

impl<V> TextMap<V> {
    #[verifier::type_invariant]
    spec fn inv(self) -> bool {
        ascending(self.entries@)
    }
}

impl<V: View> TextMap<V> {
    /// The empty map.
    pub fn new() -> (map: Self)
        ensures
            map@ == Map::<Seq<char>, V::V>::empty(),
    {
        let map: Self = TextMap { entries: Vec::new() };
        proof {
            assert(map@ =~= Map::<Seq<char>, V::V>::empty());
        }
        map
    }

    /// How many keys come before `key`, and whether `key` is the next.
    fn find(&self, key: &str) -> (r: (usize, bool))
        ensures
            r.0 <= self.entries@.len(),
            forall|k: int| 0 <= k < r.0 ==> text_before((#[trigger] self.entries@[k]).0@, key@),
            forall|k: int|
                r.0 <= k < self.entries@.len() && (k > r.0 || !r.1) ==> text_before(
                    key@,
                    (#[trigger] self.entries@[k]).0@,
                ),
            r.1 ==> r.0 < self.entries@.len() && self.entries@[r.0 as int].0@ == key@,
            r.1 == holds(self.entries@, key@),
    {
        proof {
            use_type_invariant(self);
        }
        let mut i: usize = 0;
        while i < self.entries.len() && comes_before(self.entries[i].0.as_str(), key)
            invariant
                i <= self.entries@.len(),
                forall|k: int| 0 <= k < i ==> text_before((#[trigger] self.entries@[k]).0@, key@),
            ensures
                i <= self.entries@.len(),
                forall|k: int| 0 <= k < i ==> text_before((#[trigger] self.entries@[k]).0@, key@),
                i < self.entries@.len() ==> !text_before(self.entries@[i as int].0@, key@),
            decreases self.entries@.len() - i,
        {
            i = i + 1;
        }
        let found: bool = i < self.entries.len() && str_eq(self.entries[i].0.as_str(), key);
        proof {
            let s = self.entries@;
            assert forall|k: int| i <= k < s.len() && (k > i || !found) implies text_before(
                key@,
                (#[trigger] s[k]).0@,
            ) by {
                law_texts_are_ordered(s[i as int].0@, key@);
                if k > i {
                    assert(text_before(s[i as int].0@, s[k].0@));
                    if !found {
                        law_text_order_is_transitive(key@, s[i as int].0@, s[k].0@);
                    }
                }
            }
            if !found {
                assert forall|k: int| 0 <= k < s.len() implies (#[trigger] s[k]).0@ != key@ by {
                    law_texts_are_ordered(s[k].0@, key@);
                }
            }
        }
        (i, found)
    }

    /// The value under `key`, if there is one.
    pub fn get(&self, key: &str) -> (value: Option<&V>)
        ensures
            match value {
                Some(v) => self@.dom().contains(key@) && v@ == self@[key@],
                None => !self@.dom().contains(key@),
            },
    {
        proof {
            use_type_invariant(self);
            lemma_ascending_differ(self.entries@);
        }
        let (i, found): (usize, bool) = self.find(key);
        if found {
            proof {
                lemma_place(self.entries@, i as int);
            }
            Some(&self.entries[i].1)
        } else {
            None
        }
    }

    /// Whether there is a value under `key`.
    pub fn contains_key(&self, key: &str) -> (yes: bool)
        ensures
            yes == self@.dom().contains(key@),
    {
        self.get(key).is_some()
    }

    /// Puts `value` under `key`, in place of what was there.
    pub fn insert(&mut self, key: String, value: V)
        ensures
            final(self)@ == old(self)@.insert(key@, value@),
    {
        proof {
            use_type_invariant(&*self);
        }
        let (at, found): (usize, bool) = self.find(key.as_str());
        let mut entries: Vec<(String, V)> = Vec::new();
        core::mem::swap(&mut entries, &mut self.entries);
        let ghost before = entries@;
        let ghost k = key@;
        let ghost v = value@;
        if found {
            entries[at] = (key, value);
        } else {
            entries.insert(at, (key, value));
        }
        proof {
            let after = entries@;
            let shift: int = if found {
                0
            } else {
                1
            };
            assert forall|p: int| 0 <= p < before.len() && (p != at || !found) implies (
            #[trigger] before[p]) == after[if p < at {
                p
            } else {
                p + shift
            }] by {}
            assert(after[at as int].0@ == k && after[at as int].1@ == v);
            assert(ascending(after)) by {
                assert forall|i: int, j: int| 0 <= i < j < after.len() implies text_before(
                    (#[trigger] after[i]).0@,
                    (#[trigger] after[j]).0@,
                ) by {
                    if i < at && j > at {
                        assert(text_before(before[i].0@, before[j - shift].0@));
                    } else if i < at && j < at {
                        assert(text_before(before[i].0@, before[j].0@));
                    } else if i > at {
                        assert(text_before(before[i - shift].0@, before[j - shift].0@));
                    } else if i < at {
                        assert(text_before(before[i].0@, k));
                    } else {
                        assert(text_before(k, before[j - shift].0@));
                    }
                }
            }
            lemma_ascending_differ(before);
            lemma_ascending_differ(after);
            lemma_place(after, at as int);
            assert forall|x: Seq<char>| x != k implies holds(after, x) == holds(before, x) && (holds(
                before,
                x,
            ) ==> after[place(after, x)].1@ == before[place(before, x)].1@) by {
                if holds(before, x) {
                    let p = place(before, x);
                    lemma_place(
                        after,
                        if p < at {
                            p
                        } else {
                            p + shift
                        },
                    );
                }
                if holds(after, x) {
                    let p = place(after, x);
                    lemma_place(
                        before,
                        if p < at {
                            p
                        } else {
                            p - shift
                        },
                    );
                }
            }
        }
        self.entries = entries;
        proof {
            assert(self@ =~= entry_map(before).insert(k, v));
        }
    }

    /// Takes away what is under `key`.
    pub fn remove(&mut self, key: &str)
        ensures
            final(self)@ == old(self)@.remove(key@),
    {
        proof {
            use_type_invariant(&*self);
        }
        let (at, found): (usize, bool) = self.find(key);
        let mut entries: Vec<(String, V)> = Vec::new();
        core::mem::swap(&mut entries, &mut self.entries);
        let ghost before = entries@;
        if found {
            let gone: (String, V) = entries.remove(at);
            proof {
                let after = entries@;
                assert forall|p: int| 0 <= p < after.len() implies (#[trigger] after[p])
                    == before[if p < at {
                    p
                } else {
                    p + 1
                }] by {}
                lemma_ascending_differ(before);
                lemma_ascending_differ(after);
                assert forall|x: Seq<char>| holds(after, x) == (x != key@ && holds(before, x)) && (
                holds(after, x) ==> after[place(after, x)].1@ == before[place(before, x)].1@) by {
                    if holds(before, x) && x != key@ {
                        let p = place(before, x);
                        let q = if p < at {
                            p
                        } else {
                            p - 1
                        };
                        assert(after[q] == before[p]);
                        lemma_place(after, q);
                    }
                    if holds(after, x) {
                        let p = place(after, x);
                        lemma_place(
                            before,
                            if p < at {
                                p
                            } else {
                                p + 1
                            },
                        );
                    }
                }
            }
        }
        self.entries = entries;
        proof {
            assert(self@ =~= entry_map(before).remove(key@));
        }
    }

    /// The keys in ascending order, each once.
    pub fn keys(&self) -> (keys: Vec<String>)
        ensures
            forall|k: Seq<char>|
                self@.dom().contains(k) <==> exists|i: int|
                    0 <= i < keys@.len() && #[trigger] keys@[i]@ == k,
            forall|i: int, j: int|
                0 <= i < j < keys@.len() ==> text_before(
                    (#[trigger] keys@[i])@,
                    (#[trigger] keys@[j])@,
                ),
            forall|i: int, j: int|
                0 <= i < j < keys@.len() ==> (#[trigger] keys@[i])@ != (#[trigger] keys@[j])@,
    {
        proof {
            use_type_invariant(self);
            lemma_ascending_differ(self.entries@);
        }
        let mut keys: Vec<String> = Vec::new();
        let mut i: usize = 0;
        while i < self.entries.len()
            invariant
                i <= self.entries@.len(),
                keys@.len() == i,
                forall|k: int| 0 <= k < i ==> #[trigger] keys@[k]@ == self.entries@[k].0@,
            decreases self.entries@.len() - i,
        {
            keys.push(String::from_str(self.entries[i].0.as_str()));
            i = i + 1;
        }
        proof {
            assert forall|i: int, j: int| 0 <= i < j < keys@.len() implies text_before(
                (#[trigger] keys@[i])@,
                (#[trigger] keys@[j])@,
            ) && keys@[i]@ != keys@[j]@ by {
                assert(text_before(self.entries@[i].0@, self.entries@[j].0@));
                law_texts_are_ordered(keys@[i]@, keys@[j]@);
            }
            assert forall|k: Seq<char>| self@.dom().contains(k) <==> exists|j: int|
                0 <= j < keys@.len() && #[trigger] keys@[j]@ == k by {
                if holds(self.entries@, k) {
                    let p = place(self.entries@, k);
                    assert(keys@[p]@ == k);
                }
                if exists|j: int| 0 <= j < keys@.len() && #[trigger] keys@[j]@ == k {
                    let j = choose|j: int| 0 <= j < keys@.len() && #[trigger] keys@[j]@ == k;
                    assert(self.entries@[j].0@ == k);
                }
            }
        }
        keys
    }
}

impl<V: Duplicate> Duplicate for TextMap<V> {
    fn duplicate(&self) -> (copy: Self) {
        proof {
            use_type_invariant(self);
        }
        let mut entries: Vec<(String, V)> = Vec::new();
        let mut i: usize = 0;
        while i < self.entries.len()
            invariant
                i <= self.entries@.len(),
                entries@.len() == i,
                forall|k: int|
                    0 <= k < i ==> (#[trigger] entries@[k]).0@ == self.entries@[k].0@
                        && entries@[k].1@ == self.entries@[k].1@,
            decreases self.entries@.len() - i,
        {
            entries.push(
                (String::from_str(self.entries[i].0.as_str()), self.entries[i].1.duplicate()),
            );
            i = i + 1;
        }
        proof {
            let a = self.entries@;
            let b = entries@;
            assert(ascending(b)) by {
                assert forall|x: int, y: int| 0 <= x < y < b.len() implies text_before(
                    (#[trigger] b[x]).0@,
                    (#[trigger] b[y]).0@,
                ) by {
                    assert(text_before(a[x].0@, a[y].0@));
                }
            }
            lemma_ascending_differ(a);
            lemma_ascending_differ(b);
            assert forall|x: Seq<char>| holds(a, x) == holds(b, x) && (holds(a, x) ==> a[place(
                a,
                x,
            )].1@ == b[place(b, x)].1@) by {
                if holds(a, x) {
                    let p = place(a, x);
                    assert(b[p].0@ == x);
                    lemma_place(b, p);
                }
                if holds(b, x) {
                    let p = place(b, x);
                    assert(a[p].0@ == x);
                    lemma_place(a, p);
                }
            }
            assert(entry_map(b) =~= entry_map(a));
        }
        TextMap { entries }
    }
}

impl TextMap<String> {
    /// Whether every entry of `self` is in `other`.
    fn within(&self, other: &TextMap<String>) -> (yes: bool)
        ensures
            yes == forall|k: Seq<char>|
                self@.dom().contains(k) ==> #[trigger] other@.dom().contains(k) && other@[k]
                    == self@[k],
    {
        proof {
            use_type_invariant(self);
            lemma_ascending_differ(self.entries@);
        }
        let mut i: usize = 0;
        while i < self.entries.len()
            invariant
                i <= self.entries@.len(),
                distinct(self.entries@),
                forall|j: int|
                    0 <= j < i ==> other@.dom().contains((#[trigger] self.entries@[j]).0@)
                        && other@[self.entries@[j].0@] == self.entries@[j].1@,
            decreases self.entries@.len() - i,
        {
            let same: bool = match other.get(self.entries[i].0.as_str()) {
                Some(v) => str_eq(v.as_str(), self.entries[i].1.as_str()),
                None => false,
            };
            if !same {
                proof {
                    lemma_place(self.entries@, i as int);
                    assert(self@.dom().contains(self.entries@[i as int].0@));
                }
                return false;
            }
            i = i + 1;
        }
        proof {
            assert forall|k: Seq<char>| self@.dom().contains(k) implies #[trigger] other@.dom().contains(
            k) && other@[k] == self@[k] by {
                let p = place(self.entries@, k);
                assert(self.entries@[p].0@ == k);
            }
        }
        true
    }

    /// Whether two maps hold the same.
    pub fn same(&self, other: &TextMap<String>) -> (yes: bool)
        ensures
            yes == (self@ == other@),
    {
        let yes: bool = self.within(other) && other.within(self);
        proof {
            if yes {
                assert(self@ =~= other@);
            }
        }
        yes
    }

    /// The entries as pairs of key and value, in ascending order of their keys.
    pub fn pairs(&self) -> (pairs: &Vec<(String, String)>)
        ensures
            forall|i: int|
                0 <= i < pairs@.len() ==> self@.dom().contains((#[trigger] pairs@[i]).0@)
                    && self@[pairs@[i].0@] == pairs@[i].1@,
            forall|k: Seq<char>|
                self@.dom().contains(k) ==> exists|i: int|
                    0 <= i < pairs@.len() && (#[trigger] pairs@[i]).0@ == k,
            forall|i: int, j: int|
                0 <= i < j < pairs@.len() ==> (#[trigger] pairs@[i]).0@ != (#[trigger] pairs@[j]).0@,
            forall|i: int, j: int|
                0 <= i < j < pairs@.len() ==> text_before(
                    (#[trigger] pairs@[i]).0@,
                    (#[trigger] pairs@[j]).0@,
                ),
    {
        proof {
            use_type_invariant(self);
            lemma_ascending_differ(self.entries@);
            assert forall|i: int| 0 <= i < self.entries@.len() implies self@.dom().contains(
                (#[trigger] self.entries@[i]).0@,
            ) && self@[self.entries@[i].0@] == self.entries@[i].1@ by {
                lemma_place(self.entries@, i);
            }
        }
        &self.entries
    }
}

} // verus!
