//! A small string-to-string mapping used for headers and decoded form
//! fields. Inserting an existing key overwrites its value: the view is a
//! `Map` in which the last insertion wins.
use vstd::prelude::*;

verus! {

/// The mapping described by a sequence of key/value pairs, later pairs
/// overriding earlier ones.
pub open spec fn map_of(s: Seq<(Seq<char>, Seq<char>)>) -> Map<Seq<char>, Seq<char>>
    decreases s.len(),
{
    if s.len() == 0 {
        Map::empty()
    } else {
        map_of(s.drop_last()).insert(s.last().0, s.last().1)
    }
}

#[derive(Debug)]
pub struct KeyValue {
    entries: Vec<(String, String)>,
}

impl View for KeyValue {
    type V = Map<Seq<char>, Seq<char>>;

    closed spec fn view(&self) -> Map<Seq<char>, Seq<char>> {
        map_of(self.entries.deep_view())
    }
}

/// Keys at or beyond index `i` do not mention `k`, so the lookup of `k`
/// is decided by the first `i` pairs.
proof fn lemma_map_of_prefix(s: Seq<(Seq<char>, Seq<char>)>, i: int, k: Seq<char>)
    requires
        0 <= i <= s.len(),
        forall|j: int| i <= j < s.len() ==> s[j].0 != k,
    ensures
        map_of(s).contains_key(k) == map_of(s.take(i)).contains_key(k),
        map_of(s).contains_key(k) ==> map_of(s)[k] == map_of(s.take(i))[k],
    decreases s.len() - i,
{
    if i == s.len() {
        assert(s.take(i) =~= s);
    } else {
        assert(s.take(s.len() - 1).take(i) =~= s.take(i));
        if i == s.len() - 1 {
            assert(s.drop_last() =~= s.take(i));
        } else {
            lemma_map_of_prefix(s.drop_last(), i, k);
            assert(s.drop_last().take(i) =~= s.take(i));
        }
    }
}

impl KeyValue {
    /// The pairs as inserted, in order. Exposed so that contracts can speak
    /// about an encoding of the entries, not only about the resulting map.
    pub closed spec fn pairs(&self) -> Seq<(Seq<char>, Seq<char>)> {
        self.entries.deep_view()
    }

    /// The view is exactly the mapping described by the pairs.
    pub proof fn lemma_view_is_map_of_pairs(&self)
        ensures
            self@ == map_of(self.pairs()),
    {
    }

    pub fn new() -> (r: KeyValue)
        ensures
            r@ == Map::<Seq<char>, Seq<char>>::empty(),
            r.pairs() == Seq::<(Seq<char>, Seq<char>)>::empty(),
    {
        let r = KeyValue { entries: Vec::new() };
        proof {
            assert(r.entries.deep_view() =~= Seq::<(Seq<char>, Seq<char>)>::empty());
        }
        r
    }

    pub fn insert(&mut self, k: String, v: String)
        ensures
            final(self)@ == old(self)@.insert(k@, v@),
            final(self).pairs() == old(self).pairs().push((k@, v@)),
    {
        let ghost oldp = self.entries.deep_view();
        let ghost kv = (k@, v@);
        self.entries.push((k, v));
        proof {
            assert(self.entries.deep_view() =~= oldp.push(kv));
            assert(self.entries.deep_view().drop_last() =~= oldp);
        }
    }

    pub fn get<'a>(&'a self, k: &str) -> (r: Option<&'a String>)
        ensures
            match r {
                Some(v) => self@.contains_key(k@) && v@ == self@[k@],
                None => !self@.contains_key(k@),
            },
    {
        let ghost s = self.entries.deep_view();
        let n = self.entries.len();
        let mut i: usize = n;
        while i > 0
            invariant
                n == self.entries.len(),
                s == self.entries.deep_view(),
                i <= n,
                forall|j: int| i <= j < n ==> s[j].0 != k@,
            decreases i,
        {
            i -= 1;
            let entry = &self.entries[i];
            if crate::strutil::str_eq(entry.0.as_str(), k) {
                proof {
                    lemma_map_of_prefix(s, i + 1, k@);
                    assert(s.take(i + 1).drop_last() =~= s.take(i as int));
                    assert(s.take(i + 1).last() == s[i as int]);
                }
                return Some(&entry.1);
            }
        }
        proof {
            lemma_map_of_prefix(s, 0, k@);
            assert(s.take(0) =~= Seq::<(Seq<char>, Seq<char>)>::empty());
        }
        None
    }

    /// The number of stored pairs.
    pub fn len(&self) -> (r: usize)
        ensures
            r == self.pairs().len(),
    {
        self.entries.len()
    }

    /// The key of the pair at index `i`.
    pub fn key_at<'a>(&'a self, i: usize) -> (r: &'a String)
        requires
            i < self.pairs().len(),
        ensures
            r@ == self.pairs()[i as int].0,
    {
        proof {
            assert(self.entries.deep_view()[i as int] == self.entries@[i as int].deep_view());
        }
        &self.entries[i].0
    }

    /// The value of the pair at index `i`.
    pub fn value_at<'a>(&'a self, i: usize) -> (r: &'a String)
        requires
            i < self.pairs().len(),
        ensures
            r@ == self.pairs()[i as int].1,
    {
        proof {
            assert(self.entries.deep_view()[i as int] == self.entries@[i as int].deep_view());
        }
        &self.entries[i].1
    }

    /// Whether `k` is present.
    pub fn contains(&self, k: &str) -> (r: bool)
        ensures
            r == self@.contains_key(k@),
    {
        match self.get(k) {
            Some(_) => true,
            None => false,
        }
    }
}

/// Inserting the pairs of `s` in order, starting from the empty map, yields
/// `map_of(s)`: the later of two pairs with the same key wins.
pub proof fn lemma_map_of_take_step(s: Seq<(Seq<char>, Seq<char>)>, i: int)
    requires
        0 <= i < s.len(),
    ensures
        map_of(s.take(i + 1)) == map_of(s.take(i)).insert(s[i].0, s[i].1),
{
    assert(s.take(i + 1).drop_last() =~= s.take(i));
    assert(s.take(i + 1).last() == s[i]);
}

} // verus!

verus! {

/// The map after inserting the pairs of `s` in order into `m`.
pub open spec fn insert_all(m: Map<Seq<char>, Seq<char>>, s: Seq<(Seq<char>, Seq<char>)>) -> Map<
    Seq<char>,
    Seq<char>,
>
    decreases s.len(),
{
    if s.len() == 0 {
        m
    } else {
        insert_all(m.insert(s[0].0, s[0].1), s.skip(1))
    }
}

proof fn lemma_insert_all_snoc(
    m: Map<Seq<char>, Seq<char>>,
    s: Seq<(Seq<char>, Seq<char>)>,
    p: (Seq<char>, Seq<char>),
)
    ensures
        insert_all(m, s.push(p)) == insert_all(m, s).insert(p.0, p.1),
    decreases s.len(),
{
    if s.len() == 0 {
        assert(s.push(p)[0] == p);
        assert(s.push(p).skip(1) =~= Seq::<(Seq<char>, Seq<char>)>::empty());
        assert(insert_all(m, s.push(p)) == insert_all(
            m.insert(p.0, p.1),
            Seq::<(Seq<char>, Seq<char>)>::empty(),
        ));
        assert(insert_all(m.insert(p.0, p.1), Seq::<(Seq<char>, Seq<char>)>::empty()) == m.insert(
            p.0,
            p.1,
        ));
        assert(insert_all(m, s) == m);
    } else {
        assert(s.push(p)[0] == s[0]);
        assert(s.push(p).skip(1) =~= s.skip(1).push(p));
        lemma_insert_all_snoc(m.insert(s[0].0, s[0].1), s.skip(1), p);
        assert(insert_all(m, s.push(p)) == insert_all(m.insert(s[0].0, s[0].1), s.skip(1).push(p)));
        assert(insert_all(m, s) == insert_all(m.insert(s[0].0, s[0].1), s.skip(1)));
    }
}

/// Inserting the pairs in order, starting from the empty map, yields
/// exactly their mapping.
pub proof fn lemma_insert_all_map_of(s: Seq<(Seq<char>, Seq<char>)>)
    ensures
        insert_all(Map::empty(), s) == map_of(s),
    decreases s.len(),
{
    if s.len() > 0 {
        lemma_insert_all_map_of(s.drop_last());
        lemma_insert_all_snoc(Map::empty(), s.drop_last(), s.last());
        assert(s.drop_last().push(s.last()) =~= s);
    }
}

} // verus!
