use vstd::prelude::*;

verus! {

/// The map that a sequence of distinct-keyed entries stands for.
pub open spec fn entries_map(e: Seq<(Seq<char>, Seq<char>)>) -> Map<Seq<char>, Seq<char>>
    decreases e.len(),
{
    if e.len() == 0 {
        Map::empty()
    } else {
        entries_map(e.drop_last()).insert(e.last().0, e.last().1)
    }
}

/// The entries after setting `k` to `v`: in place where `k` already stands,
/// else at the end.
pub open spec fn insert_entry(e: Seq<(Seq<char>, Seq<char>)>, k: Seq<char>, v: Seq<char>) -> Seq<
    (Seq<char>, Seq<char>),
> {
    if exists|i: int| 0 <= i < e.len() && e[i].0 == k {
        let i = choose|i: int| 0 <= i < e.len() && e[i].0 == k;
        e.update(i, (k, v))
    } else {
        e.push((k, v))
    }
}

pub open spec fn keys_distinct(e: Seq<(Seq<char>, Seq<char>)>) -> bool {
    forall|i: int, j: int| 0 <= i < j < e.len() ==> e[i].0 != e[j].0
}

pub open spec fn entry_views(v: Seq<(String, String)>) -> Seq<(Seq<char>, Seq<char>)> {
    v.map_values(|p: (String, String)| (p.0@, p.1@))
}

/// A map from text keys to text values, each key at most once, kept in the
/// order in which keys were first given.
#[derive(Debug)]
pub struct Fields {
    items: Vec<(String, String)>,
}

impl Fields {
    /// The entries, in order.
    pub closed spec fn entries(&self) -> Seq<(Seq<char>, Seq<char>)> {
        entry_views(self.items@)
    }

    #[verifier::type_invariant]
    closed spec fn inv(&self) -> bool {
        keys_distinct(self.entries())
    }

    /// Keys are distinct.
    pub open spec fn wf(&self) -> bool {
        keys_distinct(self.entries())
    }


    pub open spec fn view(&self) -> Map<Seq<char>, Seq<char>> {
        entries_map(self.entries())
    }

    pub fn new() -> (r: Fields)
        ensures
            r.wf(),
            r.entries() == Seq::<(Seq<char>, Seq<char>)>::empty(),
            r@ == Map::<Seq<char>, Seq<char>>::empty(),
    {
        let r = Fields { items: Vec::new() };
        assert(r.entries() =~= Seq::<(Seq<char>, Seq<char>)>::empty());
        r
    }

    pub fn len(&self) -> (r: usize)
        ensures
            r == self.entries().len(),
    {
        self.items.len()
    }

    pub fn is_empty(&self) -> (r: bool)
        ensures
            r == (self.entries().len() == 0),
    {
        self.items.len() == 0
    }

    /// The entry at position `i`.
    pub fn entry(&self, i: usize) -> (r: (&String, &String))
        requires
            i < self.entries().len(),
        ensures
            (r.0@, r.1@) == self.entries()[i as int],
    {
        let p = &self.items[i];
        (&p.0, &p.1)
    }

    fn position(&self, key: &str) -> (r: Option<usize>)
        ensures
            match r {
                Some(i) => i < self.entries().len() && self.entries()[i as int].0 == key@,
                None => forall|i: int| 0 <= i < self.entries().len() ==> self.entries()[i].0 != key@,
            },
    {
        let mut i: usize = 0;
        while i < self.items.len()
            invariant
                i <= self.items.len(),
                forall|j: int| 0 <= j < i ==> self.entries()[j].0 != key@,
            decreases self.items.len() - i,
        {
            if str_eq(self.items[i].0.as_str(), key) {
                return Some(i);
            }
            i += 1;
        }
        None
    }

    /// Looks a key up.
    pub fn get(&self, key: &str) -> (r: Option<&String>)
        ensures
            match r {
                Some(v) => self@.contains_key(key@) && self@[key@] == v@,
                None => !self@.contains_key(key@),
            },
    {
        proof {
            use_type_invariant(self);
            lemma_map_of_entries(self.entries());
        }
        match self.position(key) {
            Some(i) => Some(&self.items[i].1),
            None => None,
        }
    }

    /// Sets `key` to `value`, replacing an earlier value of the same key.
    pub fn insert(self, key: String, value: String) -> (r: Fields)
        ensures
            r.entries() == insert_entry(self.entries(), key@, value@),
            r@ == self@.insert(key@, value@),
    {
        proof {
            use_type_invariant(&self);
            lemma_map_of_entries(self.entries());
        }
        let pos = self.position(key.as_str());
        let ghost old_self = self;
        let Fields { mut items } = self;
        match pos {
            Some(i) => {
                let ghost old_e = old_self.entries();
                items.set(i, (key, value));
                proof {
                    let e = entry_views(items@);
                    assert(e =~= old_e.update(i as int, (key@, value@)));
                    let c = choose|c: int| 0 <= c < old_e.len() && old_e[c].0 == key@;
                    assert(c == i);
                    assert(keys_distinct(e)) by {
                        assert forall|a: int, b: int| 0 <= a < b < e.len() implies e[a].0 != e[b].0 by {
                            assert(e[a].0 == old_e[a].0 && e[b].0 == old_e[b].0);
                        }
                    }
                    lemma_map_of_entries(e);
                    let m = old_self@.insert(key@, value@);
                    assert forall|k: Seq<char>| #[trigger] entries_map(e).contains_key(k) <==> m.contains_key(k) by {
                        if entries_map(e).contains_key(k) {
                            let j = choose|j: int| 0 <= j < e.len() && e[j].0 == k;
                            assert(old_e[j].0 == k);
                        }
                        if old_self@.contains_key(k) {
                            let j = choose|j: int| 0 <= j < old_e.len() && old_e[j].0 == k;
                            assert(e[j].0 == k);
                        }
                        if k == key@ {
                            assert(e[i as int].0 == k);
                        }
                    }
                    assert forall|k: Seq<char>| #[trigger] entries_map(e).contains_key(k) implies entries_map(e)[k] == m[k] by {
                        let j = choose|j: int| 0 <= j < e.len() && e[j].0 == k;
                        assert(entries_map(e)[e[j].0] == e[j].1);
                        if j != i {
                            assert(old_e[j] == e[j]);
                            assert(old_self@[old_e[j].0] == old_e[j].1);
                        }
                    }
                    assert(entries_map(e) =~= m);
                }
            },
            None => {
                let ghost old_e = old_self.entries();
                items.push((key, value));
                proof {
                    let e = entry_views(items@);
                    assert(e =~= old_e.push((key@, value@)));
                    assert(e.drop_last() == old_e);
                    assert forall|a: int, b: int| 0 <= a < b < e.len() implies e[a].0 != e[b].0 by {
                        if b == e.len() - 1 {
                            assert(old_e[a].0 == e[a].0);
                        } else {
                            assert(old_e[a].0 == e[a].0 && old_e[b].0 == e[b].0);
                        }
                    }
                }
            },
        }
        Fields { items }
    }
}

impl Clone for Fields {
    fn clone(&self) -> (r: Fields)
        ensures
            r.entries() == self.entries(),
    {
        proof {
            use_type_invariant(self);
        }
        let mut items: Vec<(String, String)> = Vec::new();
        let mut i: usize = 0;
        while i < self.items.len()
            invariant
                i <= self.items.len(),
                keys_distinct(self.entries()),
                entry_views(items@) == self.entries().take(i as int),
            decreases self.items.len() - i,
        {
            let p = &self.items[i];
            let a = p.0.clone();
            let b = p.1.clone();
            let ghost before = items@;
            items.push((a, b));
            assert(items@ =~= before.push(self.items@[i as int]));
            assert(entry_views(items@) =~= entry_views(before).push(self.entries()[i as int]));
            assert(self.entries().take(i + 1) =~= self.entries().take(i as int).push(
                self.entries()[i as int],
            ));
            i += 1;
        }
        assert(self.entries().take(i as int) =~= self.entries());
        Fields { items }
    }
}

/// Text equality, one character at a time.
pub(crate) fn str_eq(a: &str, b: &str) -> (r: bool)
    ensures
        r == (a@ == b@),
{
    let x = crate::text::chars_of(a);
    let y = crate::text::chars_of(b);
    if x.len() != y.len() {
        return false;
    }
    let mut i: usize = 0;
    while i < x.len()
        invariant
            x@ == a@,
            y@ == b@,
            x.len() == y.len(),
            i <= x.len(),
            forall|j: int| 0 <= j < i ==> x@[j] == y@[j],
        decreases x.len() - i,
    {
        if x[i] != y[i] {
            return false;
        }
        i += 1;
    }
    assert(x@ =~= y@);
    true
}

/// What the map of distinct-keyed entries holds: the key of each entry, with
/// that entry's value.
pub proof fn lemma_map_of_entries(e: Seq<(Seq<char>, Seq<char>)>)
    requires
        keys_distinct(e),
    ensures
        forall|k: Seq<char>|
            #[trigger] entries_map(e).contains_key(k) <==> exists|i: int| 0 <= i < e.len() && e[i].0 == k,
        forall|i: int| 0 <= i < e.len() ==> #[trigger] entries_map(e)[e[i].0] == e[i].1,
    decreases e.len(),
{
    if e.len() > 0 {
        let p = e.drop_last();
        lemma_map_of_entries(p);
        assert forall|k: Seq<char>|
            #[trigger] entries_map(e).contains_key(k) <==> exists|i: int| 0 <= i < e.len() && e[i].0 == k by {
            if entries_map(e).contains_key(k) && k != e.last().0 {
                assert(entries_map(p).contains_key(k));
                let i = choose|i: int| 0 <= i < p.len() && p[i].0 == k;
                assert(e[i].0 == k);
            }
            if exists|i: int| 0 <= i < e.len() && e[i].0 == k {
                let i = choose|i: int| 0 <= i < e.len() && e[i].0 == k;
                if i < p.len() {
                    assert(p[i].0 == k);
                    assert(entries_map(p).contains_key(k));
                }
            }
        }
        assert forall|i: int| 0 <= i < e.len() implies #[trigger] entries_map(e)[e[i].0] == e[i].1 by {
            if i < p.len() {
                assert(p[i] == e[i]);
                assert(e[i].0 != e[e.len() - 1].0);
                assert(entries_map(p)[p[i].0] == p[i].1);
            }
        }
    }
}

} // verus!
