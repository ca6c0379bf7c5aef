//! The author registry: an immutable name → profile-URL lookup table, built
//! once from the input author records and rejecting duplicate names.
use vstd::prelude::*;

use crate::model::Author;

verus! {

/// The name → URL map denoted by a sequence of author records.
pub open spec fn author_map(s: Seq<Author>) -> Map<Seq<char>, Seq<char>>
    decreases s.len(),
{
    if s.len() == 0 {
        Map::empty()
    } else {
        author_map(s.drop_last()).insert(s.last().name@, s.last().url@)
    }
}

/// No two records in `s` share a name.
pub open spec fn names_unique(s: Seq<Author>) -> bool {
    forall|i: int, j: int|
        0 <= i < j < s.len() ==> (#[trigger] s[i]).name@ != (#[trigger] s[j]).name@
}

/// Record `j` repeats the name of some earlier record.
pub open spec fn repeats_earlier_name(s: Seq<Author>, j: int) -> bool {
    exists|i: int| 0 <= i < j && (#[trigger] s[i]).name@ == s[j].name@
}

/// The registry build failure: a second input record carried `name`.
#[derive(Debug, Clone, PartialEq, Eq)]
pub struct DuplicateAuthor {
    pub name: String,
}

/// The immutable author registry.
#[derive(Debug)]
pub struct Registry {
    entries: Vec<Author>,
}

impl View for Registry {
    type V = Map<Seq<char>, Seq<char>>;

    closed spec fn view(&self) -> Map<Seq<char>, Seq<char>> {
        author_map(self.entries@)
    }
}

/// Which names the map of a record sequence holds: exactly the names that
/// occur in the sequence.
pub proof fn lemma_author_map_contains(s: Seq<Author>, n: Seq<char>)
    ensures
        author_map(s).contains_key(n) <==> exists|i: int|
            0 <= i < s.len() && (#[trigger] s[i]).name@ == n,
    decreases s.len(),
{
    if s.len() > 0 {
        lemma_author_map_contains(s.drop_last(), n);
        if s.last().name@ != n {
            if author_map(s).contains_key(n) {
                let i = choose|i: int|
                    0 <= i < s.drop_last().len() && (#[trigger] s.drop_last()[i]).name@ == n;
                assert(s[i].name@ == n);
            }
            if exists|i: int| 0 <= i < s.len() && (#[trigger] s[i]).name@ == n {
                let i = choose|i: int| 0 <= i < s.len() && (#[trigger] s[i]).name@ == n;
                assert(s.drop_last()[i].name@ == n);
            }
        }
    }
}

/// In a duplicate-free record sequence, the map sends each record's name to
/// that record's URL.
pub proof fn lemma_author_map_value(s: Seq<Author>, i: int)
    requires
        names_unique(s),
        0 <= i < s.len(),
    ensures
        author_map(s).contains_key(s[i].name@),
        author_map(s)[s[i].name@] == s[i].url@,
    decreases s.len(),
{
    if i < s.len() - 1 {
        lemma_author_map_value(s.drop_last(), i);
        assert(s.drop_last()[i] == s[i]);
        assert(s.last().name@ != s[i].name@);
    }
}

/// Scans for the first record whose name repeats an earlier record's name.
fn first_repeat(records: &Vec<Author>) -> (r: Option<usize>)
    ensures
        match r {
            Some(j) => {
                &&& j < records@.len()
                &&& repeats_earlier_name(records@, j as int)
                &&& forall|k: int| 0 <= k < j ==> !repeats_earlier_name(records@, k)
            },
            None => names_unique(records@),
        },
{
    let n = records.len();
    let mut j: usize = 1;
    while j < n
        invariant
            n == records@.len(),
            1 <= j,
            forall|k: int| 0 <= k < j ==> !repeats_earlier_name(records@, k),
        decreases n - j,
    {
        let mut i: usize = 0;
        while i < j
            invariant
                j < n == records@.len(),
                i <= j,
                forall|k: int| 0 <= k < j ==> !repeats_earlier_name(records@, k),
                forall|i2: int|
                    0 <= i2 < i ==> (#[trigger] records@[i2]).name@ != records@[j as int].name@,
            decreases j - i,
        {
            if records[i].name == records[j].name {
                proof {
                    assert((#[trigger] records@[i as int]).name@ == records@[j as int].name@);
                    assert(repeats_earlier_name(records@, j as int));
                }
                return Some(j);
            }
            i += 1;
        }
        proof {
            if repeats_earlier_name(records@, j as int) {
                let i2 = choose|i2: int|
                    0 <= i2 < j && (#[trigger] records@[i2]).name@ == records@[j as int].name@;
                assert(records@[i2].name@ != records@[j as int].name@);
            }
        }
        j += 1;
    }
    proof {
        assert forall|i: int, k: int|
            0 <= i < k < records@.len() implies (#[trigger] records@[i]).name@
            != (#[trigger] records@[k]).name@ by {
            if records@[i].name@ == records@[k].name@ {
                assert(repeats_earlier_name(records@, k));
            }
        }
    }
    None
}

/// Scans for a record with the given name; the registry is small, so a
/// linear scan serves as the lookup.
fn find_name(entries: &Vec<Author>, name: &String) -> (r: Option<usize>)
    ensures
        match r {
            Some(k) => k < entries@.len() && entries@[k as int].name@ == name@,
            None => forall|i: int|
                0 <= i < entries@.len() ==> (#[trigger] entries@[i]).name@ != name@,
        },
{
    let n = entries.len();
    let mut k: usize = 0;
    while k < n
        invariant
            n == entries@.len(),
            k <= n,
            forall|i: int| 0 <= i < k ==> (#[trigger] entries@[i]).name@ != name@,
        decreases n - k,
    {
        if entries[k].name == *name {
            return Some(k);
        }
        k += 1;
    }
    None
}

impl Registry {
    /// Well-formed: no two entries share a name.
    pub closed spec fn wf(self) -> bool {
        names_unique(self.entries@)
    }

    /// The records the registry was built from, in input order.
    pub closed spec fn records(self) -> Seq<Author> {
        self.entries@
    }

    /// Builds the registry, failing on the first record whose name repeats an
    /// earlier one; on success the registry maps every input name to its URL.
    pub fn build(records: Vec<Author>) -> (r: Result<Registry, DuplicateAuthor>)
        ensures
            match r {
                Ok(reg) => {
                    &&& names_unique(records@)
                    &&& reg.wf()
                    &&& reg.records() == records@
                    &&& reg@ == author_map(records@)
                },
                Err(e) => exists|j: int|
                    {
                        &&& 0 <= j < records@.len()
                        &&& #[trigger] repeats_earlier_name(records@, j)
                        &&& forall|k: int| 0 <= k < j ==> !repeats_earlier_name(records@, k)
                        &&& e.name@ == records@[j].name@
                    },
            },
    {
        match first_repeat(&records) {
            Some(j) => {
                let mut recs = records;
                let a = recs.remove(j);
                Err(DuplicateAuthor { name: a.name })
            },
            None => Ok(Registry { entries: records }),
        }
    }

    /// Looks the name up: the profile URL when the name has a profile, and
    /// `None` otherwise — absence is a normal outcome, never a failure.
    pub fn lookup<'a>(&'a self, name: &String) -> (r: Option<&'a String>)
        requires
            self.wf(),
        ensures
            match r {
                Some(url) => self@.contains_key(name@) && url@ == self@[name@],
                None => !self@.contains_key(name@),
            },
    {
        proof {
            lemma_author_map_contains(self.entries@, name@);
        }
        match find_name(&self.entries, name) {
            Some(k) => {
                proof {
                    lemma_author_map_value(self.entries@, k as int);
                }
                Some(&self.entries[k].url)
            },
            None => None,
        }
    }
}

} // verus!
