//! The link-graph store: one article row per page title (titles unique, as a
//! primary key makes them) and one edge row per outbound link.  Inserts and
//! merges have the transactional shape of the persistent store: a page or a
//! shard lands entirely, or the store is left untouched.

use vstd::prelude::*;

use crate::text::str_eq;

verus! {

/// An edge row: `linker` points at `linked`.
#[derive(Debug)]
pub struct Edge {
    pub linker: String,
    pub linked: String,
}

/// The mathematical value of an edge row.
pub struct EdgeV {
    pub linker: Seq<char>,
    pub linked: Seq<char>,
}

impl View for Edge {
    type V = EdgeV;

    open spec fn view(&self) -> EdgeV {
        EdgeV { linker: self.linker@, linked: self.linked@ }
    }
}

/// The mathematical value of a store: its article rows and its edge rows, in
/// insertion order.
pub struct StoreV {
    pub articles: Seq<Seq<char>>,
    pub edges: Seq<EdgeV>,
}

/// A link-graph store.
#[derive(Debug)]
pub struct Store {
    articles: Vec<String>,
    edges: Vec<Edge>,
}

/// Why a store rejected an insert or a merge: the article table keys on the
/// title, and the incoming rows collide with it.
#[derive(Clone, Copy, Debug, PartialEq, Eq, Structural)]
pub enum StoreError {
    DuplicateTitle,
}

/// The edge rows that a page contributes: one per link, all naming the page
/// as the linker.
pub open spec fn edges_of(title: Seq<char>, links: Seq<Seq<char>>) -> Seq<EdgeV> {
    links.map_values(|l: Seq<char>| EdgeV { linker: title, linked: l })
}

impl View for Store {
    type V = StoreV;

    closed spec fn view(&self) -> StoreV {
        StoreV {
            articles: self.articles@.map_values(|s: String| s@),
            edges: self.edges@.map_values(|e: Edge| e@),
        }
    }
}

impl Store {
    /// Well-formedness: titles are unique, as the primary key enforces.
    pub open spec fn wf(&self) -> bool {
        forall|i: int, j: int|
            0 <= i < j < self@.articles.len() ==> self@.articles[i] != self@.articles[j]
    }

    /// Creates an empty store.
    pub fn new() -> (s: Store)
        ensures
            s.wf(),
            s@.articles == Seq::<Seq<char>>::empty(),
            s@.edges == Seq::<EdgeV>::empty(),
    {
        let s = Store { articles: Vec::new(), edges: Vec::new() };
        proof {
            assert(s@.articles =~= Seq::<Seq<char>>::empty());
            assert(s@.edges =~= Seq::<EdgeV>::empty());
        }
        s
    }

    /// The number of article rows.
    pub fn article_count(&self) -> (n: usize)
        ensures
            n == self@.articles.len(),
    {
        self.articles.len()
    }

    /// The number of edge rows.
    pub fn edge_count(&self) -> (n: usize)
        ensures
            n == self@.edges.len(),
    {
        self.edges.len()
    }

    /// The title of article row `i`.
    pub fn article_at(&self, i: usize) -> (t: &String)
        requires
            i < self@.articles.len(),
        ensures
            t@ == self@.articles[i as int],
    {
        &self.articles[i]
    }

    /// The edge row `i`.
    pub fn edge_at(&self, i: usize) -> (e: &Edge)
        requires
            i < self@.edges.len(),
        ensures
            e@ == self@.edges[i as int],
    {
        &self.edges[i]
    }

    /// Whether an article row with this title exists.
    pub fn contains_article(&self, title: &String) -> (r: bool)
        ensures
            r == self@.articles.contains(title@),
    {
        let mut j: usize = 0;
        while j < self.articles.len()
            invariant
                j <= self.articles@.len(),
                forall|k: int| 0 <= k < j ==> self.articles@[k]@ != title@,
            decreases self.articles@.len() - j,
        {
            if str_eq(self.articles[j].as_str(), title.as_str()) {
                proof {
                    assert(self@.articles[j as int] == title@);
                }
                return true;
            }
            j += 1;
        }
        proof {
            assert forall|k: int| 0 <= k < self@.articles.len() implies #[trigger] self@.articles[k]
                != title@ by {
                assert(self@.articles[k] == self.articles@[k]@);
            }
        }
        false
    }

    /// Inserts one page: its article row and one edge row per link, in order,
    /// all at once.  On a duplicate title nothing is inserted at all.
    pub fn insert_page(&mut self, title: &String, links: &Vec<String>) -> (r: Result<
        (),
        StoreError,
    >)
        requires
            old(self).wf(),
        ensures
            final (self).wf(),
            match r {
                Ok(()) => {
                    &&& !old(self)@.articles.contains(title@)
                    &&& final (self)@.articles == old(self)@.articles.push(title@)
                    &&& final (self)@.edges == old(self)@.edges + edges_of(
                        title@,
                        links@.map_values(|l: String| l@),
                    )
                },
                Err(StoreError::DuplicateTitle) => {
                    &&& old(self)@.articles.contains(title@)
                    &&& final (self)@ == old(self)@
                },
            },
    {
        if self.contains_article(title) {
            return Err(StoreError::DuplicateTitle);
        }
        let ghost old_articles = self@.articles;
        let ghost old_edges = self@.edges;
        self.articles.push(title.clone());
        proof {
            assert(self@.articles =~= old_articles.push(title@));
            assert(self@.edges =~= old_edges);
            assert forall|i: int, j: int|
                0 <= i < j < self@.articles.len() implies self@.articles[i]
                != self@.articles[j] by {
                if j == self@.articles.len() - 1 {
                    assert(!old_articles.contains(title@));
                    assert(self@.articles[i] == old_articles[i]);
                }
            }
        }
        let ghost all = edges_of(title@, links@.map_values(|l: String| l@));
        let mut i: usize = 0;
        while i < links.len()
            invariant
                i <= links@.len(),
                all == edges_of(title@, links@.map_values(|l: String| l@)),
                self@.articles == old_articles.push(title@),
                self.wf(),
                self@.edges == old_edges + all.subrange(0, i as int),
            decreases links@.len() - i,
        {
            let ghost pre_edges = self@.edges;
            self.edges.push(Edge { linker: title.clone(), linked: links[i].clone() });
            i += 1;
            proof {
                assert(all[i - 1] == (EdgeV { linker: title@, linked: links@[i - 1]@ }));
                assert(self@.edges =~= pre_edges.push(all[i - 1]));
                assert(self@.edges =~= old_edges + all.subrange(0, i as int));
            }
        }
        proof {
            assert(all.subrange(0, links@.len() as int) =~= all);
        }
        Ok(())
    }

    /// Folds one shard store into this store: all its article rows, then all
    /// its edge rows, all at once.  When any incoming title collides with an
    /// existing article row, nothing is copied at all and the shard is left
    /// for a retry.
    pub fn merge_from(&mut self, shard: &Store) -> (r: Result<(), StoreError>)
        requires
            old(self).wf(),
            shard.wf(),
        ensures
            final (self).wf(),
            match r {
                Ok(()) => {
                    &&& can_merge(old(self)@, shard@)
                    &&& final (self)@.articles == old(self)@.articles + shard@.articles
                    &&& final (self)@.edges == old(self)@.edges + shard@.edges
                    &&& final (self)@.articles.len() == old(self)@.articles.len()
                        + shard@.articles.len()
                    &&& final (self)@.edges.len() == old(self)@.edges.len() + shard@.edges.len()
                },
                Err(StoreError::DuplicateTitle) => {
                    &&& !can_merge(old(self)@, shard@)
                    &&& final (self)@ == old(self)@
                },
            },
    {
        let mut i: usize = 0;
        while i < shard.articles.len()
            invariant
                i <= shard.articles@.len(),
                self.wf(),
                self@ == old(self)@,
                forall|k: int|
                    0 <= k < i ==> !self@.articles.contains(#[trigger] shard@.articles[k]),
            decreases shard.articles@.len() - i,
        {
            if self.contains_article(&shard.articles[i]) {
                proof {
                    assert(shard@.articles[i as int] == shard.articles@[i as int]@);
                }
                return Err(StoreError::DuplicateTitle);
            }
            proof {
                assert(shard@.articles[i as int] == shard.articles@[i as int]@);
            }
            i += 1;
        }
        let ghost old_articles = self@.articles;
        let ghost old_edges = self@.edges;
        proof {
            assert forall|k: int|
                0 <= k < shard@.articles.len() implies !old_articles.contains(
                #[trigger] shard@.articles[k],
            ) by {}
        }
        let mut i: usize = 0;
        while i < shard.articles.len()
            invariant
                i <= shard.articles@.len(),
                old(self).wf(),
                shard.wf(),
                forall|k: int|
                    0 <= k < shard@.articles.len() ==> !old_articles.contains(
                        #[trigger] shard@.articles[k],
                    ),
                old_articles == old(self)@.articles,
                self@.articles == old_articles + shard@.articles.subrange(0, i as int),
                self@.edges == old_edges,
            decreases shard.articles@.len() - i,
        {
            let ghost pre = self@.articles;
            self.articles.push(shard.articles[i].clone());
            i += 1;
            proof {
                assert(shard@.articles[i - 1] == shard.articles@[i - 1]@);
                assert(self@.articles =~= pre.push(shard@.articles[i - 1]));
                assert(self@.articles =~= old_articles + shard@.articles.subrange(0, i as int));
                assert(self@.edges =~= old_edges);
            }
        }
        proof {
            assert(shard@.articles.subrange(0, shard@.articles.len() as int) =~= shard@.articles);
            let c = old_articles + shard@.articles;
            assert forall|p: int, q: int| 0 <= p < q < c.len() implies c[p] != c[q] by {
                let na = old_articles.len();
                if q < na {
                    assert(c[p] == old(self)@.articles[p]);
                    assert(c[q] == old(self)@.articles[q]);
                } else if p >= na {
                    assert(c[p] == shard@.articles[p - na]);
                    assert(c[q] == shard@.articles[q - na]);
                } else {
                    assert(c[p] == old_articles[p]);
                    assert(c[q] == shard@.articles[q - na]);
                    if c[p] == c[q] {
                        assert(old_articles.contains(shard@.articles[q - na]));
                    }
                }
            }
        }
        let mut i: usize = 0;
        while i < shard.edges.len()
            invariant
                i <= shard.edges@.len(),
                self.wf(),
                self@.articles == old_articles + shard@.articles,
                self@.edges == old_edges + shard@.edges.subrange(0, i as int),
            decreases shard.edges@.len() - i,
        {
            let ghost pre = self@.edges;
            self.edges.push(shard.edges[i].clone_row());
            i += 1;
            proof {
                assert(shard@.edges[i - 1] == shard.edges@[i - 1]@);
                assert(self@.edges =~= pre.push(shard@.edges[i - 1]));
                assert(self@.edges =~= old_edges + shard@.edges.subrange(0, i as int));
            }
        }
        proof {
            assert(shard@.edges.subrange(0, shard@.edges.len() as int) =~= shard@.edges);
        }
        Ok(())
    }

    /// Folds every shard store into this store in order, one transaction per
    /// shard: a failing shard leaves this store exactly as it was and the
    /// merge goes on with the remaining shards.  `results[k]` reports whether
    /// shard `k` was merged.
    pub fn merge_all(&mut self, shards: &Vec<Store>) -> (results: Vec<bool>)
        requires
            old(self).wf(),
            forall|i: int| 0 <= i < shards@.len() ==> (#[trigger] shards@[i]).wf(),
        ensures
            final (self).wf(),
            final (self)@ == merge_fold(old(self)@, shards@.map_values(|s: Store| s@)).0,
            results@ == merge_fold(old(self)@, shards@.map_values(|s: Store| s@)).1,
    {
        let ghost all = shards@.map_values(|s: Store| s@);
        let mut results: Vec<bool> = Vec::new();
        let mut i: usize = 0;
        proof {
            assert(all.skip(0) =~= all);
            assert(results@ + merge_fold(self@, all.skip(0)).1 =~= merge_fold(
                old(self)@,
                all,
            ).1);
        }
        while i < shards.len()
            invariant
                i <= shards@.len(),
                all == shards@.map_values(|s: Store| s@),
                forall|k: int| 0 <= k < shards@.len() ==> (#[trigger] shards@[k]).wf(),
                self.wf(),
                results@.len() == i,
                merge_fold(old(self)@, all).0 == merge_fold(self@, all.skip(i as int)).0,
                merge_fold(old(self)@, all).1 == results@ + merge_fold(
                    self@,
                    all.skip(i as int),
                ).1,
            decreases shards@.len() - i,
        {
            let ghost pre = self@;
            let ghost rest = all.skip(i as int);
            proof {
                assert(rest[0] == all[i as int]);
                assert(all[i as int] == shards@[i as int]@);
                assert(rest.drop_first() =~= all.skip(i as int + 1));
            }
            let ok = match self.merge_from(&shards[i]) {
                Ok(()) => true,
                Err(_) => false,
            };
            let ghost old_results = results@;
            results.push(ok);
            i += 1;
            proof {
                assert(ok == can_merge(pre, all[i - 1]));
                if ok {
                    assert(self@ =~= merged(pre, all[i - 1]));
                }
                assert(merge_fold(pre, rest).0 == merge_fold(self@, all.skip(i as int)).0);
                assert(merge_fold(pre, rest).1 =~= seq![ok] + merge_fold(
                    self@,
                    all.skip(i as int),
                ).1);
                assert(old_results + (seq![ok] + merge_fold(self@, all.skip(i as int)).1)
                    =~= results@ + merge_fold(self@, all.skip(i as int)).1);
            }
        }
        proof {
            assert(all.skip(i as int) =~= Seq::<StoreV>::empty());
            assert(results@ + merge_fold(self@, all.skip(i as int)).1 =~= results@);
        }
        results
    }
}

impl Edge {
    /// A copy of this edge row.
    pub fn clone_row(&self) -> (e: Edge)
        ensures
            e@ == self@,
    {
        Edge { linker: self.linker.clone(), linked: self.linked.clone() }
    }
}

/// A shard can be folded into `dst` without colliding with its article keys.
pub open spec fn can_merge(dst: StoreV, shard: StoreV) -> bool {
    forall|i: int| 0 <= i < shard.articles.len() ==> !dst.articles.contains(#[trigger] shard.articles[i])
}

/// The store after folding one shard in.
pub open spec fn merged(dst: StoreV, shard: StoreV) -> StoreV {
    StoreV { articles: dst.articles + shard.articles, edges: dst.edges + shard.edges }
}

/// The result of folding shard stores into `dst` in order: each shard lands
/// entirely when its titles are fresh and is left out entirely otherwise, and
/// the per-shard outcomes are reported in order.
pub open spec fn merge_fold(dst: StoreV, shards: Seq<StoreV>) -> (StoreV, Seq<bool>)
    decreases shards.len(),
{
    if shards.len() == 0 {
        (dst, Seq::<bool>::empty())
    } else {
        let ok = can_merge(dst, shards[0]);
        let next = if ok {
            merged(dst, shards[0])
        } else {
            dst
        };
        let rec = merge_fold(next, shards.drop_first());
        (rec.0, seq![ok] + rec.1)
    }
}

} // verus!
