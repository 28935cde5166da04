//! Reading an image's tags from Docker Hub, page by page.

use crate::resolve::error::ResolveError;
use crate::resolve::runtime::{dockerhub, tag_texts};
use crate::text::{chars_of, lemma_text_lt_strict_total, lemma_text_lt_transitive, str_eq, text_less, text_lt};
use vstd::prelude::*;

verus! {

/// How many pages of tags are read per image: the newest tags only.
pub const MAX_PAGES: usize = 5;

/// Each text sorts before every text after it, so none occurs twice.
pub open spec fn strictly_sorted(s: Seq<Seq<char>>) -> bool {
    forall|i: int, j: int| 0 <= i < j < s.len() ==> text_lt(#[trigger] s[i], #[trigger] s[j])
}

/// The tags read so far from an image's listing, each once and in sorted order, and how
/// many pages that took.
#[derive(Debug, Clone)]
pub struct TagListing {
    pub pages: usize,
    pub tags: Vec<String>,
}

/// A listing whose tags are sorted and free of repeats.
pub open spec fn listing_wf(l: TagListing) -> bool {
    strictly_sorted(tag_texts(l.tags@))
}

/// Adds `name` to a sorted list of tags without repeats, in its place.
fn insert_tag(tags: &mut Vec<String>, name: String)
    requires
        strictly_sorted(tag_texts(old(tags)@)),
    ensures
        strictly_sorted(tag_texts(final(tags)@)),
        tag_texts(final(tags)@).to_set() == tag_texts(old(tags)@).to_set().insert(name@),
{
    let ghost t = tag_texts(tags@);
    let key = chars_of(name.as_str());
    let mut p: usize = 0;
    while p < tags.len() && text_less(chars_of(tags[p].as_str()).as_slice(), key.as_slice())
        invariant
            p <= tags@.len(),
            t == tag_texts(tags@),
            key@ == name@,
            strictly_sorted(t),
            forall|j: int| 0 <= j < p ==> text_lt(#[trigger] t[j], name@),
        decreases tags@.len() - p,
    {
        assert(t[p as int] == tags@[p as int]@);
        p = p + 1;
    }
    if p < tags.len() && str_eq(tags[p].as_str(), name.as_str()) {
        assert(t[p as int] == name@);
        assert(t.to_set().insert(name@) =~= t.to_set()) by {
            assert(t.to_set().contains(t[p as int]));
        }
        return;
    }
    proof {
        if p < t.len() {
            assert(t[p as int] == tags@[p as int]@);
            assert(!text_lt(t[p as int], name@));
            assert(t[p as int] != name@);
            lemma_text_lt_strict_total(t[p as int], name@);
            assert forall|j: int| p <= j < t.len() implies text_lt(name@, #[trigger] t[j]) by {
                if j > p {
                    lemma_text_lt_transitive(name@, t[p as int], t[j]);
                }
            }
        }
    }
    let ghost n0 = name@;
    tags.insert(p, name);
    proof {
        let u = tag_texts(tags@);
        assert(u =~= t.insert(p as int, n0));
        assert forall|i: int, j: int| 0 <= i < j < u.len() implies text_lt(#[trigger] u[i], #[trigger] u[j]) by {
            if j < p {
                assert(u[i] == t[i] && u[j] == t[j]);
            } else if j == p {
                assert(u[i] == t[i]);
            } else if i < p {
                assert(u[i] == t[i] && u[j] == t[j - 1]);
                lemma_text_lt_transitive(t[i], n0, t[j - 1]);
            } else if i == p {
                assert(u[j] == t[j - 1]);
            } else {
                assert(u[i] == t[i - 1] && u[j] == t[j - 1]);
            }
        }
        assert(u.to_set() =~= t.to_set().insert(n0)) by {
            assert forall|x: Seq<char>| u.to_set().contains(x) implies t.to_set().insert(n0).contains(x) by {
                let k = choose|k: int| 0 <= k < u.len() && u[k] == x;
                if k < p {
                    assert(t[k] == x);
                } else if k > p {
                    assert(t[k - 1] == x);
                }
            }
            assert forall|x: Seq<char>| t.to_set().insert(n0).contains(x) implies u.to_set().contains(x) by {
                if x == n0 {
                    assert(u[p as int] == x);
                } else {
                    let k = choose|k: int| 0 <= k < t.len() && t[k] == x;
                    if k < p {
                        assert(u[k] == x);
                    } else {
                        assert(u[k + 1] == x);
                    }
                }
            }
        }
    }
}

impl TagListing {
    /// A listing before its first page.
    pub fn new() -> (l: TagListing)
        ensures
            l.pages == 0,
            l.tags@.len() == 0,
            listing_wf(l),
    {
        TagListing { pages: 0, tags: Vec::new() }
    }

    /// Takes the tag names of one page and the page the listing links next, if any; gives
    /// the page to read next, which is none once `MAX_PAGES` pages have been read. The
    /// listing keeps every tag read so far once, in sorted order.
    pub fn page(&mut self, names: Vec<String>, next: Option<String>) -> (follow: Option<String>)
        requires
            old(self).pages < MAX_PAGES,
            listing_wf(*old(self)),
        ensures
            final(self).pages == old(self).pages + 1,
            listing_wf(*final(self)),
            tag_texts(final(self).tags@).to_set() == tag_texts(old(self).tags@).to_set() + tag_texts(
                names@,
            ).to_set(),
            follow == if final(self).pages < MAX_PAGES {
                next
            } else {
                None
            },
    {
        let ghost before = tag_texts(self.tags@).to_set();
        let ghost added = tag_texts(names@);
        let mut k: usize = 0;
        assert(added.take(0).to_set() =~= Set::<Seq<char>>::empty());
        assert(before + Set::<Seq<char>>::empty() =~= before);
        while k < names.len()
            invariant
                k <= names@.len(),
                added == tag_texts(names@),
                self.pages == old(self).pages,
                strictly_sorted(tag_texts(self.tags@)),
                tag_texts(self.tags@).to_set() == before + added.take(k as int).to_set(),
            decreases names@.len() - k,
        {
            let name = names[k].clone();
            let ghost s0 = tag_texts(self.tags@).to_set();
            insert_tag(&mut self.tags, name);
            assert(added[k as int] == names@[k as int]@);
            assert(added.take(k + 1) =~= added.take(k as int).push(added[k as int]));
            proof {
                added.take(k as int).lemma_push_to_set_commute(added[k as int]);
            }
            assert(tag_texts(self.tags@).to_set() =~= before + added.take(k + 1).to_set());
            k = k + 1;
        }
        assert(added.take(names@.len() as int) =~= added);
        self.pages = self.pages + 1;
        if self.pages < MAX_PAGES {
            next
        } else {
            None
        }
    }

    /// The tags read, or `Empty` when the listing held none.
    pub fn finish(self) -> (res: Result<Vec<String>, ResolveError>)
        requires
            listing_wf(self),
        ensures
            match res {
                Ok(tags) => {
                    &&& tags@ == self.tags@
                    &&& tags@.len() > 0
                    &&& strictly_sorted(tag_texts(tags@))
                },
                Err(e) => {
                    &&& e matches ResolveError::Empty { upstream } && upstream@ == dockerhub()
                    &&& self.tags@.len() == 0
                },
            },
    {
        if self.tags.len() == 0 {
            proof {
                reveal_strlit("dockerhub");
            }
            return Err(ResolveError::Empty { upstream: "dockerhub" });
        }
        Ok(self.tags)
    }
}

} // verus!
