use vstd::prelude::*;
use std::collections::HashSet;
use crate::location::Location;

verus! {

/// One key/value tag of a map element.
pub struct Tag {
    pub key: String,
    pub value: String,
}

/// The kind of element a relation member refers to.
#[derive(Clone, Copy, Debug, PartialEq, Eq, Structural)]
pub enum MemberKind {
    Node,
    Way,
    Relation,
}

/// One member of a relation. `role` is `None` when the dataset's role could
/// not be decoded.
pub struct Member {
    pub id: i64,
    pub kind: MemberKind,
    pub role: Option<String>,
}

/// One element of the streamed dataset.
pub enum MapElement {
    Node { id: i64, location: Location, tags: Vec<Tag> },
    Way { id: i64, refs: Vec<i64>, tags: Vec<Tag> },
    Relation { id: i64, tags: Vec<Tag>, members: Vec<Member> },
}

/// The key and optional value that a tag must carry to match.
pub struct TagFilter {
    pub key: String,
    pub value: Option<String>,
}

/// Whether a tag with key `k` and value `v` passes a filter on `key` and `value`.
pub open spec fn spec_tag_matches(key: Seq<char>, value: Option<Seq<char>>, k: Seq<char>, v: Seq<char>) -> bool {
    k == key && match value {
        Some(s) => s == v,
        None => true,
    }
}

/// Whether some tag of `tags` has key `k` and value `v`.
pub open spec fn has_tag(tags: Seq<Tag>, k: Seq<char>, v: Seq<char>) -> bool {
    exists|i: int| 0 <= i < tags.len() && tags[i].key@ == k && tags[i].value@ == v
}

/// Whether some tag of `tags` has key `k`.
pub open spec fn has_key(tags: Seq<Tag>, k: Seq<char>) -> bool {
    exists|i: int| 0 <= i < tags.len() && tags[i].key@ == k
}

impl TagFilter {
    pub open spec fn value_view(&self) -> Option<Seq<char>> {
        match self.value {
            Some(s) => Some(s@),
            None => None,
        }
    }

    pub open spec fn spec_matches(&self, tag: Tag) -> bool {
        spec_tag_matches(self.key@, self.value_view(), tag.key@, tag.value@)
    }

    pub fn new(key: &str, value: Option<&str>) -> (r: TagFilter)
        ensures
            r.key@ == key@,
            r.value_view() == match value {
                Some(s) => Some(s@),
                None => None::<Seq<char>>,
            },
    {
        let value = match value {
            Some(s) => Some(s.to_owned()),
            None => None,
        };
        TagFilter { key: key.to_owned(), value }
    }

    /// Whether `tag` has the filter's key and, when the filter has a value,
    /// that value.
    pub fn does_tag_match(&self, tag: &Tag) -> (r: bool)
        ensures
            r == self.spec_matches(*tag),
    {
        if tag.key == self.key {
            match &self.value {
                Some(s) => *s == tag.value,
                None => true,
            }
        } else {
            false
        }
    }

    /// How many of `tags` match.
    pub open spec fn count_matches(&self, tags: Seq<Tag>) -> nat
        decreases tags.len(),
    {
        if tags.len() == 0 {
            0
        } else {
            self.count_matches(tags.drop_last()) + if self.spec_matches(tags.last()) {
                1nat
            } else {
                0nat
            }
        }
    }

    pub fn matching_count(&self, tags: &Vec<Tag>) -> (r: usize)
        ensures
            r == self.count_matches(tags@),
    {
        let mut n: usize = 0;
        let mut i: usize = 0;
        while i < tags.len()
            invariant
                i <= tags.len(),
                n == self.count_matches(tags@.take(i as int)),
                n <= i,
            decreases tags.len() - i,
        {
            proof {
                assert(tags@.take(i + 1).drop_last() =~= tags@.take(i as int));
            }
            if self.does_tag_match(&tags[i]) {
                n = n + 1;
            }
            i = i + 1;
        }
        proof {
            assert(tags@.take(i as int) =~= tags@);
        }
        n
    }
}

/// Whether some tag of `tags` has key `key`.
pub fn find_key(tags: &Vec<Tag>, key: &String) -> (r: bool)
    ensures
        r == has_key(tags@, key@),
{
    let mut i: usize = 0;
    while i < tags.len()
        invariant
            i <= tags.len(),
            forall|j: int| 0 <= j < i ==> tags@[j].key@ != key@,
        decreases tags.len() - i,
    {
        if tags[i].key == *key {
            return true;
        }
        i = i + 1;
    }
    false
}

/// Whether some tag of `tags` has key `key` and value `value`.
pub fn find_tag(tags: &Vec<Tag>, key: &String, value: &String) -> (r: bool)
    ensures
        r == has_tag(tags@, key@, value@),
{
    let mut i: usize = 0;
    while i < tags.len()
        invariant
            i <= tags.len(),
            forall|j: int| 0 <= j < i ==> !(tags@[j].key@ == key@ && tags@[j].value@ == value@),
        decreases tags.len() - i,
    {
        if tags[i].key == *key && tags[i].value == *value {
            return true;
        }
        i = i + 1;
    }
    false
}

/// Adds every id of `ids` to `set`.
pub fn insert_all(set: &mut HashSet<i64>, ids: &Vec<i64>)
    ensures
        final(set)@ == old(set)@.union(ids@.to_set()),
{
    broadcast use vstd::std_specs::hash::group_hash_axioms;

    let mut i: usize = 0;
    while i < ids.len()
        invariant
            i <= ids.len(),
            set@ == old(set)@.union(ids@.take(i as int).to_set()),
        decreases ids.len() - i,
    {
        set.insert(ids[i]);
        proof {
            assert(ids@.take(i + 1) =~= ids@.take(i as int).push(ids@[i as int]));
            ids@.take(i as int).lemma_push_to_set_commute(ids@[i as int]);
            assert(set@ =~= old(set)@.union(ids@.take(i + 1).to_set()));
        }
        i = i + 1;
    }
    proof {
        assert(ids@.take(i as int) =~= ids@);
    }
}

} // verus!
