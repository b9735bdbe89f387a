//! A mapping from header names to header values, kept in insertion order.
use vstd::prelude::*;
use vstd::string::StringExecFns;
use crate::text::str_eq;

verus! {

/// The mapping that a list of (name, value) entries stands for: a later entry
/// for a name replaces an earlier one.
pub open spec fn entries_map(e: Seq<(Seq<char>, Seq<char>)>) -> Map<Seq<char>, Seq<char>>
    decreases e.len(),
{
    if e.len() == 0 {
        Map::empty()
    } else {
        entries_map(e.drop_last()).insert(e.last().0, e.last().1)
    }
}

/// No two entries share a name.
pub open spec fn keys_unique(e: Seq<(Seq<char>, Seq<char>)>) -> bool {
    forall|i: int, j: int| 0 <= i < j < e.len() ==> e[i].0 != e[j].0
}

/// The entries after setting `k` to `v`: an entry with that name keeps its
/// place and takes the new value; otherwise the pair goes at the end.
pub open spec fn entries_insert(e: Seq<(Seq<char>, Seq<char>)>, k: Seq<char>, v: Seq<char>) -> Seq<
    (Seq<char>, Seq<char>),
> {
    if exists|i: int| 0 <= i < e.len() && e[i].0 == k {
        e.update(choose|i: int| 0 <= i < e.len() && e[i].0 == k, (k, v))
    } else {
        e.push((k, v))
    }
}

/// The header lines that the entries render to, each `name: value` and a line break.
pub open spec fn entries_text(e: Seq<(Seq<char>, Seq<char>)>) -> Seq<char>
    decreases e.len(),
{
    if e.len() == 0 {
        Seq::empty()
    } else {
        entries_text(e.drop_last()) + e.last().0 + seq![':', ' '] + e.last().1 + seq!['\r', '\n']
    }
}

/// The header lines that the entries render to, each `name: value`, with a
/// line break between two lines and none after the last.
pub open spec fn entries_block(e: Seq<(Seq<char>, Seq<char>)>) -> Seq<char>
    decreases e.len(),
{
    if e.len() == 0 {
        Seq::empty()
    } else if e.len() == 1 {
        e[0].0 + seq![':', ' '] + e[0].1
    } else {
        entries_block(e.drop_last()) + seq!['\r', '\n'] + e.last().0 + seq![':', ' '] + e.last().1
    }
}

pub proof fn lemma_entries_map_contains(e: Seq<(Seq<char>, Seq<char>)>, k: Seq<char>)
    ensures
        entries_map(e).contains_key(k) <==> exists|i: int| 0 <= i < e.len() && e[i].0 == k,
    decreases e.len(),
{
    if e.len() > 0 {
        lemma_entries_map_contains(e.drop_last(), k);
        if entries_map(e.drop_last()).contains_key(k) {
            let i = choose|i: int| 0 <= i < e.drop_last().len() && e.drop_last()[i].0 == k;
            assert(e[i].0 == k);
        }
        if exists|i: int| 0 <= i < e.len() && e[i].0 == k {
            let i = choose|i: int| 0 <= i < e.len() && e[i].0 == k;
            if i < e.len() - 1 {
                assert(e.drop_last()[i].0 == k);
            }
        }
    }
}

pub proof fn lemma_entries_map_at(e: Seq<(Seq<char>, Seq<char>)>, i: int)
    requires
        keys_unique(e),
        0 <= i < e.len(),
    ensures
        entries_map(e).contains_key(e[i].0),
        entries_map(e)[e[i].0] == e[i].1,
    decreases e.len(),
{
    if i < e.len() - 1 {
        assert(keys_unique(e.drop_last()));
        lemma_entries_map_at(e.drop_last(), i);
        assert(e.drop_last()[i] == e[i]);
    }
}

pub proof fn lemma_entries_map_update(e: Seq<(Seq<char>, Seq<char>)>, j: int, v: Seq<char>)
    requires
        keys_unique(e),
        0 <= j < e.len(),
    ensures
        entries_map(e.update(j, (e[j].0, v))) == entries_map(e).insert(e[j].0, v),
    decreases e.len(),
{
    let u = e.update(j, (e[j].0, v));
    if j == e.len() - 1 {
        assert(u.drop_last() =~= e.drop_last());
        assert(entries_map(u) =~= entries_map(e).insert(e[j].0, v));
    } else {
        assert(keys_unique(e.drop_last()));
        lemma_entries_map_update(e.drop_last(), j, v);
        assert(u.drop_last() =~= e.drop_last().update(j, (e[j].0, v)));
        assert(e.last().0 != e[j].0);
        assert(entries_map(u) =~= entries_map(e).insert(e[j].0, v));
    }
}

/// Header names mapped to values. Names are unique; the entries keep the
/// order in which their names were first inserted.
#[derive(Debug)]
pub struct HeaderMap {
    entries: Vec<(String, String)>,
}

impl View for HeaderMap {
    type V = Map<Seq<char>, Seq<char>>;

    open spec fn view(&self) -> Map<Seq<char>, Seq<char>> {
        entries_map(self.entries())
    }
}

impl HeaderMap {
    /// The entries as (name, value) pairs, in their order.
    pub closed spec fn entries(&self) -> Seq<(Seq<char>, Seq<char>)> {
        self.entries@.map_values(|e: (String, String)| (e.0@, e.1@))
    }

    /// No two entries share a name.
    pub open spec fn wf(&self) -> bool {
        keys_unique(self.entries())
    }

    /// An empty mapping.
    pub fn new() -> (r: HeaderMap)
        ensures
            r.wf(),
            r.entries() == Seq::<(Seq<char>, Seq<char>)>::empty(),
            r@ == Map::<Seq<char>, Seq<char>>::empty(),
    {
        let r = HeaderMap { entries: Vec::new() };
        assert(r.entries() =~= Seq::<(Seq<char>, Seq<char>)>::empty());
        r
    }

    /// The number of entries.
    pub fn len(&self) -> (r: usize)
        ensures
            r == self.entries().len(),
    {
        self.entries.len()
    }

    /// The position of the entry named `key`, if there is one.
    fn position(&self, key: &str) -> (r: Option<usize>)
        ensures
            match r {
                Some(i) => i < self.entries().len() && self.entries()[i as int].0 == key@,
                None => forall|i: int| 0 <= i < self.entries().len() ==> self.entries()[i].0 != key@,
            },
    {
        let mut i: usize = 0;
        while i < self.entries.len()
            invariant
                i <= self.entries().len(),
                self.entries().len() == self.entries@.len(),
                forall|j: int| 0 <= j < i ==> self.entries()[j].0 != key@,
            decreases self.entries.len() - i,
        {
            if str_eq(self.entries[i].0.as_str(), key) {
                return Some(i);
            }
            i = i + 1;
        }
        None
    }

    /// The value for `key`, if the mapping holds it.
    pub fn get(&self, key: &str) -> (r: Option<&String>)
        requires
            self.wf(),
        ensures
            match r {
                Some(v) => self@.contains_key(key@) && self@[key@] == v@,
                None => !self@.contains_key(key@),
            },
    {
        proof {
            lemma_entries_map_contains(self.entries(), key@);
        }
        match self.position(key) {
            Some(i) => {
                proof {
                    lemma_entries_map_at(self.entries(), i as int);
                }
                Some(&self.entries[i].1)
            },
            None => None,
        }
    }

    /// Sets `key` to `value`, replacing the value of an entry of that name.
    pub fn insert(&mut self, key: String, value: String)
        requires
            old(self).wf(),
        ensures
            final(self).wf(),
            final(self)@ == old(self)@.insert(key@, value@),
            final(self).entries() == entries_insert(old(self).entries(), key@, value@),
    {
        let ghost e = self.entries();
        match self.position(key.as_str()) {
            Some(i) => {
                proof {
                    lemma_entries_map_update(e, i as int, value@);
                    assert(forall|j: int| 0 <= j < e.len() && e[j].0 == key@ ==> j == i);
                }
                self.entries.set(i, (key, value));
                assert(self.entries() =~= e.update(i as int, (key@, value@)));
            },
            None => {
                self.entries.push((key, value));
                assert(self.entries() =~= e.push((key@, value@)));
                assert(self.entries().drop_last() =~= e);
                assert(forall|j: int| 0 <= j < e.len() ==> e[j].0 != key@);
            },
        }
    }

    /// Appends the header lines, each `name: value` and a line break, in entry order.
    pub fn append_lines(&self, out: &mut String)
        ensures
            final(out)@ == old(out)@ + entries_text(self.entries()),
    {
        let mut i: usize = 0;
        while i < self.entries.len()
            invariant
                i <= self.entries().len(),
                self.entries().len() == self.entries@.len(),
                out@ == old(out)@ + entries_text(self.entries().take(i as int)),
            decreases self.entries.len() - i,
        {
            let ghost before = out@;
            out.append(self.entries[i].0.as_str());
            out.append(": ");
            out.append(self.entries[i].1.as_str());
            out.append("\r\n");
            proof {
                reveal_strlit(": ");
                reveal_strlit("\r\n");
                let t = self.entries().take(i + 1);
                assert(t.drop_last() =~= self.entries().take(i as int));
                assert(out@ =~= old(out)@ + entries_text(t));
            }
            i = i + 1;
        }
        assert(self.entries().take(i as int) =~= self.entries());
    }

    /// Appends the header lines, each `name: value`, in entry order, with a
    /// line break between two lines and none after the last.
    pub fn append_block(&self, out: &mut String)
        ensures
            final(out)@ == old(out)@ + entries_block(self.entries()),
    {
        let mut i: usize = 0;
        while i < self.entries.len()
            invariant
                i <= self.entries().len(),
                self.entries().len() == self.entries@.len(),
                out@ == old(out)@ + entries_block(self.entries().take(i as int)),
            decreases self.entries.len() - i,
        {
            if i > 0 {
                out.append("\r\n");
            }
            out.append(self.entries[i].0.as_str());
            out.append(": ");
            out.append(self.entries[i].1.as_str());
            proof {
                reveal_strlit(": ");
                reveal_strlit("\r\n");
                let t = self.entries().take(i + 1);
                assert(t.drop_last() =~= self.entries().take(i as int));
                assert(out@ =~= old(out)@ + entries_block(t));
            }
            i = i + 1;
        }
        assert(self.entries().take(i as int) =~= self.entries());
    }
}

} // verus!
