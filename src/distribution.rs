//! How often tag names, or the values of one tag, occur over a collection of
//! media files.
use crate::assoc::{keys_distinct, lemma_distinct_push, lemma_map_of_dom, lemma_map_of_index, lemma_map_of_update, map_of};
use crate::tags::{pair_views, str_eq, ExtractionError, TagMap};
use vstd::prelude::*;

verus! {

/// The pairs of a count map as texts and numbers.
pub open spec fn count_views(pairs: Seq<(String, usize)>) -> Seq<(Seq<char>, nat)> {
    pairs.map_values(|p: (String, usize)| (p.0@, p.1 as nat))
}

/// The count of a key: 0 where the map does not hold it.
pub open spec fn count_of(counts: Map<Seq<char>, nat>, key: Seq<char>) -> nat {
    if counts.contains_key(key) {
        counts[key]
    } else {
        0
    }
}

/// Keys mapped to how often they occurred; each key occurs once.
#[derive(Debug)]
pub struct TagCounts {
    entries: Vec<(String, usize)>,
}

impl View for TagCounts {
    type V = Map<Seq<char>, nat>;

    closed spec fn view(&self) -> Map<Seq<char>, nat> {
        map_of(count_views(self.entries@))
    }
}

impl TagCounts {
    /// Each key occurs once among the pairs.
    pub closed spec fn wf(&self) -> bool {
        keys_distinct(count_views(self.entries@))
    }

    fn new() -> (r: TagCounts)
        ensures
            r.wf(),
            r@ == Map::<Seq<char>, nat>::empty(),
    {
        let r = TagCounts { entries: Vec::new() };
        assert(count_views(r.entries@) =~= Seq::empty());
        r
    }

    fn position(&self, key: &str) -> (r: Option<usize>)
        ensures
            match r {
                Some(i) => i < self.entries@.len() && self.entries@[i as int].0@ == key@,
                None => forall|i: int| 0 <= i < self.entries@.len() ==> self.entries@[i].0@ != key@,
            },
    {
        let mut i: usize = 0;
        while i < self.entries.len()
            invariant
                i <= self.entries@.len(),
                forall|k: int| 0 <= k < i ==> self.entries@[k].0@ != key@,
            decreases self.entries@.len() - i,
        {
            if str_eq(self.entries[i].0.as_str(), key) {
                return Some(i);
            }
            i += 1;
        }
        None
    }

    /// Counts one more occurrence of a key.
    fn increment(&mut self, key: &String)
        requires
            old(self).wf(),
            count_of(old(self)@, key@) < usize::MAX,
        ensures
            final(self).wf(),
            final(self)@ == old(self)@.insert(key@, count_of(old(self)@, key@) + 1),
    {
        let ghost views = count_views(self.entries@);
        proof {
            lemma_map_of_dom(views, key@);
        }
        match self.position(key.as_str()) {
            Some(i) => {
                proof {
                    assert(views[i as int] == (self.entries@[i as int].0@, self.entries@[i as int].1 as nat));
                    lemma_map_of_index(views, i as int);
                    lemma_map_of_update(views, i as int, (self.entries@[i as int].1 + 1) as nat);
                }
                let c = self.entries[i].1;
                self.entries.set(i, (key.clone(), c + 1));
                assert(count_views(self.entries@) =~= views.update(
                    i as int,
                    (views[i as int].0, (c + 1) as nat),
                ));
            },
            None => {
                proof {
                    assert forall|k: int| 0 <= k < views.len() implies views[k].0 != key@ by {
                        assert(views[k].0 == self.entries@[k].0@);
                    }
                    if self@.contains_key(key@) {
                        let k = choose|k: int| 0 <= k < views.len() && views[k].0 == key@;
                        assert(views[k].0 != key@);
                    }
                    lemma_distinct_push(views, key@, 1nat);
                }
                self.entries.push((key.clone(), 1));
                assert(count_views(self.entries@) =~= views.push((key@, 1nat)));
            },
        }
    }

    /// How often a key occurred: `None` where it never did.
    pub fn get(&self, key: &str) -> (r: Option<usize>)
        requires
            self.wf(),
        ensures
            match r {
                Some(c) => self@.contains_key(key@) && self@[key@] == c as nat,
                None => !self@.contains_key(key@),
            },
    {
        let ghost views = count_views(self.entries@);
        proof {
            lemma_map_of_dom(views, key@);
        }
        match self.position(key) {
            Some(i) => {
                proof {
                    assert(views[i as int] == (self.entries@[i as int].0@, self.entries@[i as int].1 as nat));
                    lemma_map_of_index(views, i as int);
                }
                Some(self.entries[i].1)
            },
            None => {
                proof {
                    if self@.contains_key(key@) {
                        let k = choose|k: int| 0 <= k < views.len() && views[k].0 == key@;
                        assert(views[k].0 == self.entries@[k].0@);
                    }
                }
                None
            },
        }
    }

    /// The keys with their counts, each key once, in the order of their first
    /// occurrence.
    pub fn entries(&self) -> (r: &Vec<(String, usize)>)
        requires
            self.wf(),
        ensures
            keys_distinct(count_views(r@)),
            self@ == map_of(count_views(r@)),
    {
        &self.entries
    }
}

/// What one extraction adds to the count of a tag name: one where it gave
/// tags that hold the name.
pub open spec fn name_hit(result: Result<TagMap, ExtractionError>, name: Seq<char>) -> nat {
    match result {
        Ok(m) => if m@.contains_key(name) {
            1
        } else {
            0
        },
        Err(_) => 0,
    }
}

/// How many of the extractions gave tags that hold the name.
pub open spec fn name_count(results: Seq<Result<TagMap, ExtractionError>>, name: Seq<char>) -> nat
    decreases results.len(),
{
    if results.len() == 0 {
        0
    } else {
        name_count(results.drop_last(), name) + name_hit(results.last(), name)
    }
}

/// What one extraction adds to the count of a value of a tag: one where it
/// gave tags in which the tag has that value.
pub open spec fn value_hit(
    result: Result<TagMap, ExtractionError>,
    name: Seq<char>,
    value: Seq<char>,
) -> nat {
    match result {
        Ok(m) => if m@.contains_key(name) && m@[name] == value {
            1
        } else {
            0
        },
        Err(_) => 0,
    }
}

/// How many of the extractions gave tags in which the tag has the value.
pub open spec fn value_count(
    results: Seq<Result<TagMap, ExtractionError>>,
    name: Seq<char>,
    value: Seq<char>,
) -> nat
    decreases results.len(),
{
    if results.len() == 0 {
        0
    } else {
        value_count(results.drop_last(), name, value) + value_hit(results.last(), name, value)
    }
}

/// Each tag name that occurs, with the number of extractions whose tags hold it.
pub open spec fn name_distribution(results: Seq<Result<TagMap, ExtractionError>>) -> Map<Seq<char>, nat> {
    Map::new(|k: Seq<char>| name_count(results, k) > 0, |k: Seq<char>| name_count(results, k))
}

/// Each value that the tag has somewhere, with the number of extractions
/// whose tags give the tag that value.
pub open spec fn value_distribution(
    results: Seq<Result<TagMap, ExtractionError>>,
    name: Seq<char>,
) -> Map<Seq<char>, nat> {
    Map::new(
        |v: Seq<char>| value_count(results, name, v) > 0,
        |v: Seq<char>| value_count(results, name, v),
    )
}

/// The tag maps among the extractions are well formed.
pub open spec fn results_wf(results: Seq<Result<TagMap, ExtractionError>>) -> bool {
    forall|i: int| 0 <= i < results.len() && (#[trigger] results[i]) is Ok ==> results[i]->Ok_0.wf()
}

proof fn lemma_name_count_bound(results: Seq<Result<TagMap, ExtractionError>>, name: Seq<char>)
    ensures
        name_count(results, name) <= results.len(),
    decreases results.len(),
{
    if results.len() > 0 {
        lemma_name_count_bound(results.drop_last(), name);
    }
}

proof fn lemma_value_count_bound(
    results: Seq<Result<TagMap, ExtractionError>>,
    name: Seq<char>,
    value: Seq<char>,
)
    ensures
        value_count(results, name, value) <= results.len(),
    decreases results.len(),
{
    if results.len() > 0 {
        lemma_value_count_bound(results.drop_last(), name, value);
    }
}

/// How often each tag name occurs over the extractions; a failed extraction
/// counts for nothing.
pub fn tag_name_distribution(results: &Vec<Result<TagMap, ExtractionError>>) -> (r: TagCounts)
    requires
        results_wf(results@),
    ensures
        r.wf(),
        r@ == name_distribution(results@),
{
    let mut counts = TagCounts::new();
    let mut i: usize = 0;
    while i < results.len()
        invariant
            i <= results@.len(),
            results_wf(results@),
            counts.wf(),
            forall|k: Seq<char>| #[trigger] count_of(counts@, k) == name_count(results@.take(i as int), k),
            forall|k: Seq<char>| #[trigger] counts@.contains_key(k) ==> counts@[k] > 0,
        decreases results@.len() - i,
    {
        let ghost done = results@.take(i as int);
        let ghost next = results@.take(i + 1);
        assert(next.drop_last() =~= done);
        assert(next.last() == results@[i as int]);
        match &results[i] {
            Ok(tags) => {
                assert(results@[i as int] is Ok);
                let pairs = tags.entries();
                let n = results.len();
                let ghost pv = pair_views(pairs@);
                let mut j: usize = 0;
                while j < pairs.len()
                    invariant
                        i < n,
                        n == results@.len(),
                        done == results@.take(i as int),
                        j <= pairs@.len(),
                        pv == pair_views(pairs@),
                        keys_distinct(pv),
                        tags@ == map_of(pv),
                        counts.wf(),
                        forall|k: Seq<char>| #[trigger]
                            count_of(counts@, k) == name_count(done, k) + (if exists|a: int|
                                0 <= a < j && pv[a].0 == k {
                                1nat
                            } else {
                                0nat
                            }),
                        forall|k: Seq<char>| #[trigger] counts@.contains_key(k) ==> counts@[k] > 0,
                    decreases pairs@.len() - j,
                {
                    let key = &pairs[j].0;
                    let ghost kv = key@;
                    assert(pv[j as int].0 == kv);
                    proof {
                        assert(!exists|a: int| 0 <= a < j && pv[a].0 == kv);
                        assert(count_of(counts@, kv) == name_count(done, kv));
                        lemma_name_count_bound(done, kv);
                        assert(done.len() == i);
                    }
                    let ghost old_counts = counts@;
                    counts.increment(key);
                    assert forall|k: Seq<char>| #[trigger]
                        count_of(counts@, k) == name_count(done, k) + (if exists|a: int|
                            0 <= a < j + 1 && pv[a].0 == k {
                            1nat
                        } else {
                            0nat
                        }) by {
                        if k == kv {
                            assert(pv[j as int].0 == k);
                        } else {
                            assert(count_of(counts@, k) == count_of(old_counts, k));
                            if exists|a: int| 0 <= a < j + 1 && pv[a].0 == k {
                                let a = choose|a: int| 0 <= a < j + 1 && pv[a].0 == k;
                                assert(a < j);
                            }
                        }
                    }
                    j += 1;
                }
                assert forall|k: Seq<char>| #[trigger] count_of(counts@, k) == name_count(next, k) by {
                    lemma_map_of_dom(pv, k);
                }
            },
            Err(_) => {
                assert forall|k: Seq<char>| #[trigger] count_of(counts@, k) == name_count(next, k) by {}
            },
        }
        i += 1;
    }
    assert(results@.take(results@.len() as int) =~= results@);
    assert(counts@ =~= name_distribution(results@)) by {
        assert forall|k: Seq<char>| #[trigger] counts@.contains_key(k) <==> name_distribution(results@).contains_key(k) by {
            assert(count_of(counts@, k) == name_count(results@, k));
        }
        assert forall|k: Seq<char>| #[trigger] counts@.contains_key(k) implies counts@[k] == name_distribution(results@)[k] by {
            assert(count_of(counts@, k) == name_count(results@, k));
        }
    }
    counts
}

/// How often each value of one tag occurs over the extractions whose tags
/// hold it; a failed extraction counts for nothing.
pub fn tag_value_distribution(name: &str, results: &Vec<Result<TagMap, ExtractionError>>) -> (r:
    TagCounts)
    requires
        results_wf(results@),
    ensures
        r.wf(),
        r@ == value_distribution(results@, name@),
{
    let mut counts = TagCounts::new();
    let mut i: usize = 0;
    while i < results.len()
        invariant
            i <= results@.len(),
            results_wf(results@),
            counts.wf(),
            forall|v: Seq<char>| #[trigger] count_of(counts@, v) == value_count(results@.take(i as int), name@, v),
            forall|v: Seq<char>| #[trigger] counts@.contains_key(v) ==> counts@[v] > 0,
        decreases results@.len() - i,
    {
        let ghost done = results@.take(i as int);
        let ghost next = results@.take(i + 1);
        assert(next.drop_last() =~= done);
        assert(next.last() == results@[i as int]);
        let ghost before = counts@;
        match &results[i] {
            Ok(tags) => {
                assert(results@[i as int] is Ok);
                match tags.get(name) {
                    Some(value) => {
                        proof {
                            lemma_value_count_bound(done, name@, value@);
                            assert(count_of(counts@, value@) == value_count(done, name@, value@));
                            assert(done.len() == i);
                        }
                        counts.increment(value);
                    },
                    None => {},
                }
            },
            Err(_) => {},
        }
        assert forall|v: Seq<char>| #[trigger] count_of(counts@, v) == value_count(next, name@, v) by {
            assert(count_of(before, v) == value_count(done, name@, v));
        }
        i += 1;
    }
    assert(results@.take(results@.len() as int) =~= results@);
    assert(counts@ =~= value_distribution(results@, name@)) by {
        assert forall|v: Seq<char>| #[trigger] counts@.contains_key(v) <==> value_distribution(results@, name@).contains_key(v) by {
            assert(count_of(counts@, v) == value_count(results@, name@, v));
        }
        assert forall|v: Seq<char>| #[trigger] counts@.contains_key(v) implies counts@[v] == value_distribution(results@, name@)[v] by {
            assert(count_of(counts@, v) == value_count(results@, name@, v));
        }
    }
    counts
}

/// A failed extraction adds to no count: the distributions over the
/// extractions with it are those without it.
pub proof fn lemma_failed_extraction_counts_nothing(
    results: Seq<Result<TagMap, ExtractionError>>,
    error: ExtractionError,
    name: Seq<char>,
)
    ensures
        name_distribution(results.push(Err(error))) == name_distribution(results),
        value_distribution(results.push(Err(error)), name) == value_distribution(results, name),
{
    let with = results.push(Err(error));
    assert(with.drop_last() =~= results);
    assert(name_distribution(with) =~= name_distribution(results));
    assert(value_distribution(with, name) =~= value_distribution(results, name));
}

} // verus!
