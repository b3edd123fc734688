use vstd::prelude::*;
use crate::error::MailError;
use crate::message::{Message, MessageView};

verus! {

/// The paginated, append-only cache of message headers, newest first. It
/// plans which older range to fetch next and takes the fetched batches in;
/// the network itself stays with the caller, which sends the planned
/// requests and hands the parsed headers back.
pub struct MessageCollection {
    messages: Vec<Message>,
    pub page_size: usize,
    pub current_page: usize,
}

impl MessageCollection {
    /// The cached headers, newest first.
    pub closed spec fn cached(self) -> Seq<MessageView> {
        self.messages@.map_values(|m: Message| m@)
    }

    pub closed spec fn spec_page_size(self) -> int {
        self.page_size as int
    }

    pub closed spec fn spec_current_page(self) -> int {
        self.current_page as int
    }

    /// The cache invariant: sequence numbers run down in steps of one, so
    /// the order is strictly descending with no gaps.
    pub open spec fn wf(self) -> bool {
        forall|i: int|
            0 <= i < self.cached().len() - 1 ==> #[trigger] self.cached()[i + 1].id
                == self.cached()[i].id - 1
    }

    pub open spec fn page_start(self) -> int {
        self.spec_current_page() * self.spec_page_size()
    }

    pub open spec fn page_end(self) -> int {
        self.page_start() + self.spec_page_size()
    }

    /// Whether the cache already holds the whole current page.
    pub open spec fn page_filled(self) -> bool {
        self.page_end() <= self.cached().len()
    }

    /// The newest sequence number still to fetch: one below the oldest
    /// cached header, or one below the mailbox total while the cache is
    /// empty.
    pub open spec fn spec_upper(self, inbox_count: int) -> int {
        if self.cached().len() == 0 {
            inbox_count - 1
        } else {
            self.cached().last().id - 1
        }
    }

    /// Whether a fetch is still wanted for the current page.
    pub open spec fn fetch_pending(self, inbox_count: int) -> bool {
        !self.page_filled() && self.spec_upper(inbox_count) >= 1
    }

    /// The oldest sequence number of the next fetch: low enough to satisfy
    /// the current page, but never below one.
    pub open spec fn spec_lo(self, inbox_count: int) -> int {
        let needed = self.page_end() - self.cached().len();
        let hi = self.spec_upper(inbox_count);
        if hi >= needed {
            hi - needed + 1
        } else {
            1
        }
    }

    /// An empty cache showing its first page.
    pub fn new(page_size: usize) -> (r: MessageCollection)
        ensures
            r.cached() =~= Seq::<MessageView>::empty(),
            r.spec_page_size() == page_size as int,
            r.spec_current_page() == 0,
            r.wf(),
    {
        MessageCollection { messages: Vec::new(), page_size, current_page: 0 }
    }

    /// Moves one page towards older messages.
    pub fn next_page(&mut self)
        requires
            old(self).spec_current_page() < usize::MAX,
        ensures
            final(self).spec_current_page() == old(self).spec_current_page() + 1,
            final(self).spec_page_size() == old(self).spec_page_size(),
            final(self).cached() == old(self).cached(),
    {
        self.current_page = self.current_page + 1;
    }

    /// Moves one page towards newer messages, staying at the first.
    pub fn prev_page(&mut self)
        ensures
            final(self).spec_current_page() == if old(self).spec_current_page() > 0 {
                old(self).spec_current_page() - 1
            } else {
                0
            },
            final(self).spec_page_size() == old(self).spec_page_size(),
            final(self).cached() == old(self).cached(),
    {
        self.current_page = self.current_page.saturating_sub(1);
    }

    /// How many headers the cache holds.
    pub fn cached_len(&self) -> (r: usize)
        ensures
            r == self.cached().len(),
    {
        self.messages.len()
    }

    /// The header at a cache position.
    pub fn message_at(&self, i: usize) -> (r: &Message)
        requires
            i < self.cached().len(),
        ensures
            r@ == self.cached()[i as int],
    {
        &self.messages[i]
    }

    /// The cache positions of the current page, exactly when the cache
    /// already holds all of it.
    pub fn get_current_page(&self) -> (r: Option<(usize, usize)>)
        requires
            self.page_end() <= usize::MAX,
        ensures
            r is Some <==> self.page_filled(),
            match r {
                Some(p) => p.0 as int == self.page_start() && p.1 as int == self.page_end(),
                None => true,
            },
    {
        let mlen = self.messages.len();
        let s = self.current_page * self.page_size;
        let e = s + self.page_size;
        if e <= mlen {
            Some((s, e))
        } else {
            None
        }
    }

    /// The sequence number of one message of the current page, by its index
    /// within the page.
    pub fn message_id_at(&self, index: usize) -> (r: Option<usize>)
        requires
            self.page_end() <= usize::MAX,
        ensures
            r is Some <==> index < self.spec_page_size() && self.page_start() + index
                < self.cached().len(),
            match r {
                Some(id) => id as int == self.cached()[self.page_start() + index].id,
                None => true,
            },
    {
        if index >= self.page_size {
            return None;
        }
        let pos = self.current_page * self.page_size + index;
        if pos < self.messages.len() {
            Some(self.messages[pos].id)
        } else {
            None
        }
    }

    /// The next fetch to make for the current page: the contiguous range of
    /// sequence numbers directly below what is cached, just large enough to
    /// fill the page, and never below one. `None` exactly when nothing more
    /// is wanted: the page is already filled, or the mailbox is exhausted.
    pub fn next_fetch_range(&self, inbox_count: usize) -> (r: Option<(usize, usize)>)
        requires
            self.page_end() <= usize::MAX,
        ensures
            r is Some <==> self.fetch_pending(inbox_count as int),
            match r {
                Some(p) => p.0 as int == self.spec_lo(inbox_count as int) && p.1 as int
                    == self.spec_upper(inbox_count as int) && 1 <= p.0 <= p.1,
                None => true,
            },
    {
        let mlen = self.messages.len();
        let e = self.current_page * self.page_size + self.page_size;
        if e <= mlen {
            return None;
        }
        let hi: usize = if mlen == 0 {
            if inbox_count >= 2 {
                inbox_count - 1
            } else {
                return None;
            }
        } else {
            let last_id = self.messages[mlen - 1].id;
            proof {
                assert(self.cached().last() == self.messages@[mlen - 1]@);
            }
            if last_id >= 2 {
                last_id - 1
            } else {
                return None;
            }
        };
        let needed = e - mlen;
        let lo: usize = if hi >= needed {
            hi - needed + 1
        } else {
            1
        };
        Some((lo, hi))
    }

    /// Whether a fetched batch fits the cache: ascending by one, and ending
    /// directly below the oldest cached header.
    pub open spec fn batch_fits(self, bviews: Seq<MessageView>) -> bool {
        &&& forall|j: int|
            0 <= j < bviews.len() - 1 ==> #[trigger] bviews[j + 1].id == bviews[j].id + 1
        &&& (self.cached().len() > 0 && bviews.len() > 0 ==> bviews.last().id
            == self.cached().last().id - 1)
    }

    /// Appends one fetched batch. The server hands headers oldest first, so
    /// the batch is reversed before it is appended, keeping the whole cache
    /// newest first; a batch that does not fit is rejected whole, leaving
    /// the cache untouched.
    pub fn extend_with_batch(&mut self, batch: Vec<Message>) -> (r: Result<(), MailError>)
        requires
            old(self).wf(),
        ensures
            final(self).spec_page_size() == old(self).spec_page_size(),
            final(self).spec_current_page() == old(self).spec_current_page(),
            r is Ok <==> old(self).batch_fits(crate::imap::message_views(batch@)),
            r is Ok ==> final(self).cached() == old(self).cached() + crate::imap::message_views(
                batch@,
            ).reverse() && final(self).wf(),
            r matches Err(e) ==> e is Parse && *final(self) == *old(self),
    {
        let ghost bviews = crate::imap::message_views(batch@);
        let blen = batch.len();
        let mut j: usize = 0;
        while blen - j > 1
            invariant
                blen == bviews.len(),
                j <= blen,
                batch@.len() == blen,
                bviews == crate::imap::message_views(batch@),
                forall|t: int| 0 <= t < j ==> #[trigger] bviews[t + 1].id == bviews[t].id + 1,
            decreases blen - j,
        {
            proof {
                assert(bviews[j as int] == batch@[j as int]@);
                assert(bviews[j + 1] == batch@[j + 1]@);
            }
            if !(batch[j].id < usize::MAX && batch[j + 1].id == batch[j].id + 1) {
                proof {
                    assert(bviews[j + 1].id != bviews[j as int].id + 1);
                }
                return Err(MailError::Parse);
            }
            j = j + 1;
        }
        let mlen = self.messages.len();
        if mlen > 0 && blen > 0 {
            proof {
                assert(self.cached().last() == self.messages@[mlen - 1]@);
                assert(bviews.last() == batch@[blen - 1]@);
            }
            let last_cached = self.messages[mlen - 1].id;
            if !(last_cached >= 1 && batch[blen - 1].id == last_cached - 1) {
                proof {
                    assert(bviews.last().id != self.cached().last().id - 1);
                }
                return Err(MailError::Parse);
            }
        }
        let ghost old_cached = self.cached();
        let ghost batch0 = batch@;
        let mut b = batch;
        proof {
            assert(b@ =~= batch0.subrange(0, b@.len() as int));
            assert(bviews.subrange(blen as int, blen as int).reverse() =~= Seq::<
                MessageView,
            >::empty());
            assert(self.cached() =~= old_cached + bviews.subrange(
                blen as int,
                blen as int,
            ).reverse());
        }
        while b.len() > 0
            invariant
                blen == bviews.len(),
                b@.len() <= blen,
                bviews == crate::imap::message_views(batch0),
                b@ == batch0.subrange(0, b@.len() as int),
                self.cached() == old_cached + bviews.subrange(
                    b@.len() as int,
                    blen as int,
                ).reverse(),
                self.spec_page_size() == old(self).spec_page_size(),
                self.spec_current_page() == old(self).spec_current_page(),
            decreases b@.len(),
        {
            let ghost k = b@.len() as int;
            match b.pop() {
                Some(m) => {
                    let ghost pre_cached = self.cached();
                    proof {
                        assert(m == batch0[k - 1]);
                        assert(m@ == bviews[k - 1]);
                    }
                    self.messages.push(m);
                    proof {
                        assert(self.cached() =~= pre_cached.push(bviews[k - 1]));
                        assert(bviews.subrange(k - 1, blen as int).reverse() =~= bviews.subrange(
                            k,
                            blen as int,
                        ).reverse().push(bviews[k - 1]));
                        assert(self.cached() =~= old_cached + bviews.subrange(
                            k - 1,
                            blen as int,
                        ).reverse());
                        assert(b@ =~= batch0.subrange(0, k - 1));
                    }
                },
                None => {
                    proof {
                        assert(false);
                    }
                },
            }
        }
        proof {
            assert(bviews.subrange(0, blen as int) =~= bviews);
            assert(self.cached() == old_cached + bviews.reverse());
            let newc = self.cached();
            let n0 = old_cached.len() as int;
            assert forall|i: int|
                0 <= i < newc.len() - 1 implies #[trigger] newc[i + 1].id == newc[i].id - 1 by {
                if i + 1 < n0 {
                    assert(newc[i] == old_cached[i]);
                    assert(newc[i + 1] == old_cached[i + 1]);
                    assert(old_cached[i + 1].id == old_cached[i].id - 1);
                } else if i + 1 == n0 {
                    assert(newc[i] == old_cached[i]);
                    assert(newc[i + 1] == bviews.reverse()[0]);
                    assert(bviews.reverse()[0] == bviews[blen - 1]);
                    assert(old_cached.last() == old_cached[i]);
                } else {
                    let p = i - n0;
                    assert(newc[i] == bviews.reverse()[p]);
                    assert(newc[i + 1] == bviews.reverse()[p + 1]);
                    assert(bviews.reverse()[p] == bviews[blen - 1 - p]);
                    assert(bviews.reverse()[p + 1] == bviews[blen - 2 - p]);
                    assert(bviews[(blen - 2 - p) + 1].id == bviews[blen - 2 - p].id + 1);
                }
            }
        }
        Ok(())
    }
}

/// Reading the current page is idempotent: once the cache satisfies the
/// page, no further fetch is planned for it, and what the page holds is a
/// pure function of the unchanged cache state.
pub proof fn lemma_current_page_idempotent(c: MessageCollection, inbox_count: int)
    requires
        c.page_filled(),
    ensures
        !c.fetch_pending(inbox_count),
{
}

/// The cached sequence is strictly descending by sequence number: the cache
/// invariant leaves no room for equal ids or gaps out of order.
pub proof fn lemma_cache_strictly_descending(c: MessageCollection, i: int, j: int)
    requires
        c.wf(),
        0 <= i < j < c.cached().len(),
    ensures
        c.cached()[i].id > c.cached()[j].id,
    decreases j - i,
{
    assert(c.cached()[i + 1].id == c.cached()[i].id - 1);
    if i + 1 < j {
        lemma_cache_strictly_descending(c, i + 1, j);
    }
}

} // verus!
