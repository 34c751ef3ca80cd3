//! A set of worker URLs.

use vstd::prelude::*;

verus! {

/// A set of worker URLs; no URL is held twice.
#[derive(Debug)]
pub struct UrlSet {
    urls: Vec<String>,
}

/// Whether no two strings of `urls` hold the same text.
pub open spec fn distinct_texts(urls: Seq<String>) -> bool {
    forall|i: int, j: int| 0 <= i < j < urls.len() ==> urls[i]@ != urls[j]@
}

/// The texts that occur in `urls`.
pub open spec fn texts(urls: Seq<String>) -> Set<Seq<char>> {
    Set::new(|u: Seq<char>| exists|i: int| 0 <= i < urls.len() && urls[i]@ == u)
}

/// As many texts occur in `urls` as it has elements, if none occurs twice.
pub proof fn lemma_texts_len(urls: Seq<String>)
    requires
        distinct_texts(urls),
    ensures
        texts(urls).finite(),
        texts(urls).len() == urls.len(),
    decreases urls.len(),
{
    if urls.len() == 0 {
        assert(texts(urls) =~= Set::empty());
    } else {
        let init = urls.drop_last();
        lemma_texts_len(init);
        lemma_texts_push(init, urls.last());
        assert(init.push(urls.last()) =~= urls);
        assert(!texts(init).contains(urls.last()@)) by {
            assert forall|i: int| 0 <= i < init.len() implies init[i]@ != urls.last()@ by {
                assert(urls[i]@ != urls[urls.len() - 1]@);
            }
        }
    }
}

/// Appending a string adds its text.
pub proof fn lemma_texts_push(urls: Seq<String>, url: String)
    ensures
        texts(urls.push(url)) == texts(urls).insert(url@),
{
    let longer = urls.push(url);
    assert forall|u: Seq<char>| texts(urls).insert(url@).contains(u) implies texts(longer).contains(
        u,
    ) by {
        if u == url@ {
            assert(longer[urls.len() as int]@ == u);
        } else {
            let i = choose|i: int| 0 <= i < urls.len() && urls[i]@ == u;
            assert(longer[i]@ == u);
        }
    }
    assert(texts(longer) =~= texts(urls).insert(url@));
}

impl View for UrlSet {
    type V = Set<Seq<char>>;

    closed spec fn view(&self) -> Set<Seq<char>> {
        texts(self.urls@)
    }
}

impl UrlSet {
    #[verifier::type_invariant]
    spec fn distinct(self) -> bool {
        distinct_texts(self.urls@)
    }

    /// The empty set.
    pub fn new() -> (s: UrlSet)
        ensures
            s@ == Set::<Seq<char>>::empty(),
    {
        let s = UrlSet { urls: Vec::new() };
        assert(s@ =~= Set::<Seq<char>>::empty());
        s
    }

    /// How many URLs the set holds.
    pub fn len(&self) -> (n: usize)
        ensures
            self@.finite(),
            n == self@.len(),
    {
        proof {
            use_type_invariant(self);
            lemma_texts_len(self.urls@);
        }
        self.urls.len()
    }

    /// Whether the set holds `url`.
    pub fn contains(&self, url: &str) -> (found: bool)
        ensures
            found == self@.contains(url@),
    {
        let mut i: usize = 0;
        while i < self.urls.len()
            invariant
                i <= self.urls@.len(),
                forall|j: int| 0 <= j < i ==> self.urls@[j]@ != url@,
            decreases self.urls@.len() - i,
        {
            if *self.urls[i].as_str() == *url {
                return true;
            }
            i += 1;
        }
        false
    }

    /// The set with `url` added.
    pub fn with(self, url: String) -> (s: UrlSet)
        ensures
            s@ == self@.insert(url@),
    {
        proof {
            use_type_invariant(&self);
        }
        if self.contains(url.as_str()) {
            assert(self@.insert(url@) =~= self@);
            return self;
        }
        let ghost before = self.urls@;
        proof {
            assert forall|i: int| 0 <= i < before.len() implies before[i]@ != url@ by {
                assert(!texts(before).contains(url@));
            }
            lemma_texts_push(before, url);
        }
        let mut urls = self.urls;
        urls.push(url);
        UrlSet { urls }
    }

    /// The set with the URLs of `other` added.
    pub fn with_all(self, other: &UrlSet) -> (s: UrlSet)
        ensures
            s@ == self@.union(other@),
    {
        let ghost before = self@;
        let mut s = self;
        let mut i: usize = 0;
        assert(texts(other.urls@.take(0)) =~= Set::<Seq<char>>::empty());
        while i < other.urls.len()
            invariant
                i <= other.urls@.len(),
                s@ =~= before.union(texts(other.urls@.take(i as int))),
            decreases other.urls@.len() - i,
        {
            proof {
                lemma_texts_push(other.urls@.take(i as int), other.urls@[i as int]);
                assert(other.urls@.take(i + 1) =~= other.urls@.take(i as int).push(
                    other.urls@[i as int],
                ));
            }
            s = s.with(other.urls[i].clone());
            i += 1;
        }
        assert(other.urls@.take(other.urls@.len() as int) =~= other.urls@);
        s
    }

    /// Whether every URL of the set is in `other`.
    pub fn is_subset(&self, other: &UrlSet) -> (subset: bool)
        ensures
            subset == self@.subset_of(other@),
    {
        let mut i: usize = 0;
        while i < self.urls.len()
            invariant
                i <= self.urls@.len(),
                forall|j: int| 0 <= j < i ==> other@.contains(#[trigger] self.urls@[j]@),
            decreases self.urls@.len() - i,
        {
            if !other.contains(self.urls[i].as_str()) {
                assert(self@.contains(self.urls@[i as int]@));
                return false;
            }
            i += 1;
        }
        true
    }

    /// The URLs of the set, each once, in no particular order.
    pub fn as_slice(&self) -> (urls: &[String])
        ensures
            distinct_texts(urls@),
            texts(urls@) == self@,
    {
        proof {
            use_type_invariant(self);
        }
        self.urls.as_slice()
    }

    /// The URLs of the set that are not in `other`, each once.
    pub fn difference(&self, other: &UrlSet) -> (urls: Vec<String>)
        ensures
            distinct_texts(urls@),
            texts(urls@) == self@.difference(other@),
    {
        proof {
            use_type_invariant(self);
        }
        let mut urls: Vec<String> = Vec::new();
        let mut i: usize = 0;
        assert(texts(urls@) =~= Set::<Seq<char>>::empty());
        assert(texts(self.urls@.take(0)) =~= Set::<Seq<char>>::empty());
        while i < self.urls.len()
            invariant
                i <= self.urls@.len(),
                distinct_texts(self.urls@),
                distinct_texts(urls@),
                texts(urls@) =~= texts(self.urls@.take(i as int)).difference(other@),
            decreases self.urls@.len() - i,
        {
            let ghost seen = self.urls@.take(i as int);
            let ghost here = self.urls@[i as int];
            proof {
                assert(self.urls@.take(i + 1) =~= seen.push(here));
                lemma_texts_push(seen, here);
                assert(!texts(seen).contains(here@)) by {
                    assert forall|j: int| 0 <= j < seen.len() implies seen[j]@ != here@ by {
                        assert(self.urls@[j]@ != self.urls@[i as int]@);
                    }
                }
            }
            if !other.contains(self.urls[i].as_str()) {
                let ghost before = urls@;
                urls.push(self.urls[i].clone());
                proof {
                    lemma_texts_push(before, here);
                    assert forall|j: int| 0 <= j < before.len() implies before[j]@ != here@ by {
                        assert(texts(before).contains(before[j]@));
                    }
                }
            }
            i += 1;
        }
        assert(self.urls@.take(self.urls@.len() as int) =~= self.urls@);
        urls
    }
}

impl vstd::std_specs::cmp::PartialEqSpecImpl for UrlSet {
    open spec fn obeys_eq_spec() -> bool {
        true
    }

    open spec fn eq_spec(&self, other: &UrlSet) -> bool {
        self@ == other@
    }
}

impl PartialEq for UrlSet {
    fn eq(&self, other: &UrlSet) -> (equal: bool) {
        let equal = self.is_subset(other) && other.is_subset(self);
        assert(equal == (self@ =~= other@));
        equal
    }
}

/// A text occurs in a list exactly if it stands somewhere in it, and a list without repetition
/// has it in one place only.
pub proof fn law_texts_stand_in_the_list(urls: Seq<String>, u: Seq<char>)
    ensures
        texts(urls).contains(u) <==> exists|i: int| 0 <= i < urls.len() && urls[i]@ == u,
        distinct_texts(urls) <==> forall|i: int, j: int|
            0 <= i < urls.len() && 0 <= j < urls.len() && urls[i]@ == urls[j]@ ==> i == j,
{
    if distinct_texts(urls) {
        assert forall|i: int, j: int|
            0 <= i < urls.len() && 0 <= j < urls.len() && urls[i]@ == urls[j]@ implies i == j by {
            if i < j {
                assert(urls[i]@ != urls[j]@);
            } else if j < i {
                assert(urls[j]@ != urls[i]@);
            }
        }
    }
}

} // verus!
