//! Who is online on the server: which connection each logged-in user is
//! reached through. A user is reached through the connection of their
//! latest login; a connection serves at most one user; a connection that
//! ends takes off only its own user.
use vstd::prelude::*;

verus! {

/// The table of users online, by connection number.
pub struct OnlineTable {
    entries: Vec<(String, u64)>,
}

/// The routes after `user` logs in on connection `conn`: whatever the
/// connection served before is dropped, and `user` is reached through it.
pub open spec fn routes_after_login(m: Map<Seq<char>, u64>, user: Seq<char>, conn: u64) -> Map<
    Seq<char>,
    u64,
> {
    Map::new(|k: Seq<char>| m.contains_key(k) && m[k] != conn, |k: Seq<char>| m[k]).insert(
        user,
        conn,
    )
}

/// The routes after connection `conn`, on which `user` was logged in, ends:
/// `user` is taken off only if still reached through `conn`.
pub open spec fn routes_after_close(m: Map<Seq<char>, u64>, user: Seq<char>, conn: u64) -> Map<
    Seq<char>,
    u64,
> {
    if m.contains_key(user) && m[user] == conn {
        m.remove(user)
    } else {
        m
    }
}

impl OnlineTable {
    /// The table's entries as names and connection numbers.
    pub closed spec fn pairs(&self) -> Seq<(Seq<char>, u64)> {
        self.entries@.map_values(|e: (String, u64)| (e.0@, e.1))
    }

    /// No name and no connection occurs twice.
    pub closed spec fn wf(&self) -> bool {
        forall|i: int, j: int|
            0 <= i < j < self.pairs().len() ==> (#[trigger] self.pairs()[i]).0 != (
            #[trigger] self.pairs()[j]).0 && self.pairs()[i].1 != self.pairs()[j].1
    }

    /// The connection each online user is reached through.
    pub closed spec fn view(&self) -> Map<Seq<char>, u64> {
        Map::new(
            |k: Seq<char>| exists|i: int| 0 <= i < self.pairs().len() && self.pairs()[i].0 == k,
            |k: Seq<char>|
                self.pairs()[choose|i: int| 0 <= i < self.pairs().len() && self.pairs()[i].0 == k].1,
        )
    }

    /// Each entry is a route of the table.
    proof fn lemma_entry(&self, i: int)
        requires
            self.wf(),
            0 <= i < self.pairs().len(),
        ensures
            self.view().contains_key(self.pairs()[i].0),
            self.view()[self.pairs()[i].0] == self.pairs()[i].1,
    {
        let k = self.pairs()[i].0;
        assert(exists|j: int| 0 <= j < self.pairs().len() && self.pairs()[j].0 == k);
        let j = choose|j: int| 0 <= j < self.pairs().len() && self.pairs()[j].0 == k;
        if j != i {
            if i < j {
                assert(self.pairs()[i].0 != self.pairs()[j].0);
            } else {
                assert(self.pairs()[j].0 != self.pairs()[i].0);
            }
        }
    }

    /// Nobody is online.
    pub fn new() -> (t: OnlineTable)
        ensures
            t.wf(),
            t.view() == Map::<Seq<char>, u64>::empty(),
    {
        let t = OnlineTable { entries: Vec::new() };
        assert(t.view() =~= Map::<Seq<char>, u64>::empty());
        t
    }

    /// The connection through which `user` is reached, if `user` is online.
    pub fn route(&self, user: &String) -> (conn: Option<u64>)
        requires
            self.wf(),
        ensures
            conn == (if self.view().contains_key(user@) {
                Some(self.view()[user@])
            } else {
                None
            }),
    {
        let mut i: usize = 0;
        while i < self.entries.len()
            invariant
                i <= self.entries@.len(),
                self.wf(),
                forall|j: int| 0 <= j < i ==> self.pairs()[j].0 != user@,
            decreases self.entries@.len() - i,
        {
            if self.entries[i].0 == *user {
                proof {
                    assert(self.pairs()[i as int].0 == user@);
                    self.lemma_entry(i as int);
                }
                return Some(self.entries[i].1);
            }
            assert(self.pairs()[i as int].0 != user@);
            i = i + 1;
        }
        None
    }

    /// `user` logs in on connection `conn`: from now on `user` is reached
    /// through `conn` (a later login moves the route), and whoever `conn`
    /// served before is no longer reached through it.
    pub fn login(&mut self, user: String, conn: u64)
        requires
            old(self).wf(),
        ensures
            final(self).wf(),
            final(self).view() == routes_after_login(old(self).view(), user@, conn),
    {
        let ghost old_pairs = self.pairs();
        let ghost before: OnlineTable = *self;
        let mut kept: Vec<(String, u64)> = Vec::new();
        let ghost mut src: Seq<int> = Seq::empty();
        let mut i: usize = 0;
        while i < self.entries.len()
            invariant
                i <= self.entries@.len(),
                old_pairs == self.pairs(),
                *self == before,
                before == *old(self),
                self.wf(),
                src.len() == kept@.len(),
                forall|j: int| 0 <= j < src.len() ==> 0 <= #[trigger] src[j] < i,
                forall|a: int, b: int| 0 <= a < b < src.len() ==> #[trigger] src[a] < #[trigger] src[b],
                forall|j: int|
                    0 <= j < src.len() ==> (#[trigger] kept@[j]).0@ == old_pairs[src[j]].0
                        && kept@[j].1 == old_pairs[src[j]].1 && old_pairs[src[j]].0 != user@
                        && old_pairs[src[j]].1 != conn,
                forall|q: int|
                    0 <= q < i && old_pairs[q].0 != user@ && old_pairs[q].1 != conn ==> exists|
                        j: int,
                    | 0 <= j < src.len() && #[trigger] src[j] == q,
            decreases self.entries@.len() - i,
        {
            let e = &self.entries[i];
            if !(e.0 == user) && e.1 != conn {
                proof {
                    assert(old_pairs[i as int].0 == e.0@);
                }
                kept.push((e.0.clone(), e.1));
                proof {
                    let ghost old_src = src;
                    src = src.push(i as int);
                    assert(src[src.len() - 1] == i as int);
                    assert forall|q: int|
                        0 <= q < i + 1 && old_pairs[q].0 != user@ && old_pairs[q].1 != conn implies exists|
                            j: int,
                        | 0 <= j < src.len() && #[trigger] src[j] == q by {
                        if q == i {
                            assert(src[src.len() - 1] == q);
                        } else {
                            let j = choose|j: int| 0 <= j < old_src.len() && #[trigger] old_src[j] == q;
                            assert(src[j] == old_src[j]);
                        }
                    }
                }
            } else {
                proof {
                    assert(old_pairs[i as int].0 == e.0@);
                    assert(old_pairs[i as int].1 == e.1);
                }
            }
            i = i + 1;
        }
        let ghost kept_pairs = kept@.map_values(|e: (String, u64)| (e.0@, e.1));
        kept.push((user, conn));
        self.entries = kept;
        proof {
            let np = self.pairs();
            let n = np.len();
            assert(n == src.len() + 1);
            assert forall|j: int| 0 <= j < n - 1 implies np[j] == old_pairs[#[trigger] src[j]] by {
                assert(np[j] == (self.entries@[j].0@, self.entries@[j].1));
            }
            assert(np[n - 1] == (user@, conn));
            assert forall|a: int, b: int| 0 <= a < b < n implies (#[trigger] np[a]).0 != (
            #[trigger] np[b]).0 && np[a].1 != np[b].1 by {
                if b < n - 1 {
                    assert(np[a] == old_pairs[src[a]] && np[b] == old_pairs[src[b]]);
                    assert(src[a] < src[b]);
                    assert(old_pairs[src[a]].0 != old_pairs[src[b]].0);
                } else {
                    assert(np[a] == old_pairs[src[a]]);
                }
            }
            assert(self.wf());
            let m = routes_after_login(old(self).view(), user@, conn);
            assert forall|k: Seq<char>| #[trigger] self.view().contains_key(k) <==> m.contains_key(
                k,
            ) by {
                if k == user@ {
                    self.lemma_entry(n - 1);
                } else {
                    if self.view().contains_key(k) {
                        let j = choose|j: int| 0 <= j < n && np[j].0 == k;
                        assert(j < n - 1);
                        let q = src[j];
                        assert(old_pairs[q] == np[j]);
                        old(self).lemma_entry(q);
                    }
                    if m.contains_key(k) {
                        assert(old(self).view().contains_key(k));
                        let q = choose|q: int| 0 <= q < old_pairs.len() && old_pairs[q].0 == k;
                        old(self).lemma_entry(q);
                        assert(old_pairs[q].1 != conn);
                        let j = choose|j: int| 0 <= j < src.len() && #[trigger] src[j] == q;
                        assert(np[j] == old_pairs[q]);
                    }
                }
            }
            assert forall|k: Seq<char>| #[trigger] self.view().contains_key(k) implies self.view()[k]
                == m[k] by {
                let j = choose|j: int| 0 <= j < n && np[j].0 == k;
                self.lemma_entry(j);
                if k != user@ {
                    assert(j < n - 1);
                    old(self).lemma_entry(src[j]);
                }
            }
            assert(self.view() =~= m);
        }
    }

    /// Connection `conn`, on which `user` was logged in, ends: `user` goes
    /// offline only if still reached through `conn`; a newer login of the
    /// same user elsewhere keeps its route.
    pub fn close(&mut self, user: &String, conn: u64)
        requires
            old(self).wf(),
        ensures
            final(self).wf(),
            final(self).view() == routes_after_close(old(self).view(), user@, conn),
    {
        let ghost old_pairs = self.pairs();
        let ghost before: OnlineTable = *self;
        let mut i: usize = 0;
        while i < self.entries.len()
            invariant
                i <= self.entries@.len(),
                old_pairs == self.pairs(),
                *self == before,
                before == *old(self),
                self.wf(),
                forall|j: int| 0 <= j < i ==> old_pairs[j].0 != user@,
            decreases self.entries@.len() - i,
        {
            if self.entries[i].0 == *user {
                proof {
                    assert(old_pairs[i as int].0 == user@);
                    self.lemma_entry(i as int);
                }
                if self.entries[i].1 == conn {
                    self.entries.remove(i);
                    proof {
                        let np = self.pairs();
                        assert forall|j: int| 0 <= j < np.len() implies #[trigger] np[j] == (if j
                            < i {
                            old_pairs[j]
                        } else {
                            old_pairs[j + 1]
                        }) by {
                            assert(np[j] == (self.entries@[j].0@, self.entries@[j].1));
                        }
                        assert forall|a: int, b: int| 0 <= a < b < np.len() implies (
                        #[trigger] np[a]).0 != (#[trigger] np[b]).0 && np[a].1 != np[b].1 by {
                            let oa = if a < i { a } else { a + 1 };
                            let ob = if b < i { b } else { b + 1 };
                            assert(np[a] == old_pairs[oa] && np[b] == old_pairs[ob]);
                            assert(old_pairs[oa].0 != old_pairs[ob].0);
                        }
                        assert(self.wf());
                        let m = old(self).view().remove(user@);
                        assert forall|k: Seq<char>| #[trigger] self.view().contains_key(k)
                            <==> m.contains_key(k) by {
                            if self.view().contains_key(k) {
                                let j = choose|j: int| 0 <= j < np.len() && np[j].0 == k;
                                let oj = if j < i { j } else { j + 1 };
                                assert(np[j] == old_pairs[oj]);
                                old(self).lemma_entry(oj);
                                assert(oj != i);
                                assert(old_pairs[oj].0 != old_pairs[i as int].0);
                            }
                            if m.contains_key(k) {
                                assert(before.view().contains_key(k));
                                let q = choose|q: int| 0 <= q < old_pairs.len() && old_pairs[q].0 == k;
                                assert(q != i);
                                let j = if q < i { q } else { q - 1 };
                                assert(np[j] == old_pairs[q]);
                            }
                        }
                        assert forall|k: Seq<char>| #[trigger] self.view().contains_key(k) implies self.view()[k]
                            == m[k] by {
                            let j = choose|j: int| 0 <= j < np.len() && np[j].0 == k;
                            self.lemma_entry(j);
                            let oj = if j < i { j } else { j + 1 };
                            assert(np[j] == old_pairs[oj]);
                            old(self).lemma_entry(oj);
                        }
                        assert(self.view() =~= m);
                    }
                }
                return;
            }
            i = i + 1;
        }
        proof {
            if old(self).view().contains_key(user@) {
                let q = choose|q: int| 0 <= q < old_pairs.len() && old_pairs[q].0 == user@;
                assert(old_pairs[q].0 != user@);
            }
        }
    }
}

} // verus!
