//! Bytes sent per MIME type.

use vstd::prelude::*;

use crate::strings::{starts_with, str_eq};

verus! {

/// How many bytes were sent for each MIME type, and how many responses.
#[derive(Debug, Clone)]
pub struct Statistics {
    statmap: Vec<(String, usize)>,
    requests: usize,
}

/// Whether a MIME type is an image type (it starts with `image`).
pub open spec fn is_image(mime: Seq<char>) -> bool {
    5 <= mime.len() && mime.subrange(0, 5) == "image"@
}

/// What an entry adds to a total: its bytes, or, counting images only,
/// nothing for other types.
pub open spec fn counted(e: (String, usize), images_only: bool) -> nat {
    if !images_only || is_image(e.0@) {
        e.1 as nat
    } else {
        0
    }
}

/// The bytes of all entries, or of the image entries only.
pub open spec fn total_of(es: Seq<(String, usize)>, images_only: bool) -> nat
    decreases es.len(),
{
    if es.len() == 0 {
        0
    } else {
        total_of(es.drop_last(), images_only) + counted(es.last(), images_only)
    }
}

/// Whether entry `i` is the first for `mime`.
pub open spec fn first_entry(es: Seq<(String, usize)>, mime: Seq<char>, i: int) -> bool {
    0 <= i < es.len() && es[i].0@ == mime && forall|j: int| 0 <= j < i ==> (#[trigger] es[j]).0@ != mime
}

/// The bytes recorded for `mime`: the first entry for it, or 0.
pub open spec fn sent_of(es: Seq<(String, usize)>, mime: Seq<char>) -> nat {
    if exists|i: int| first_entry(es, mime, i) {
        es[choose|i: int| first_entry(es, mime, i)].1 as nat
    } else {
        0
    }
}

proof fn lemma_total_update(es: Seq<(String, usize)>, k: int, v: usize, b: bool)
    requires
        0 <= k < es.len(),
    ensures
        total_of(es.update(k, (es[k].0, v)), b) + counted(es[k], b) == total_of(es, b) + counted(
            (es[k].0, v),
            b,
        ),
    decreases es.len(),
{
    let ns = es.update(k, (es[k].0, v));
    if k == es.len() - 1 {
        assert(ns.drop_last() =~= es.drop_last());
    } else {
        lemma_total_update(es.drop_last(), k, v, b);
        assert(ns.drop_last() =~= es.drop_last().update(k, (es[k].0, v)));
    }
}

proof fn lemma_images_within_total(es: Seq<(String, usize)>)
    ensures
        total_of(es, true) <= total_of(es, false),
    decreases es.len(),
{
    if es.len() > 0 {
        lemma_images_within_total(es.drop_last());
    }
}

proof fn lemma_prefix_total(es: Seq<(String, usize)>, i: int, b: bool)
    requires
        0 <= i <= es.len(),
    ensures
        total_of(es.subrange(0, i), b) <= total_of(es, b),
    decreases es.len() - i,
{
    if i < es.len() {
        lemma_prefix_total(es, i + 1, b);
        assert(es.subrange(0, i + 1).drop_last() =~= es.subrange(0, i));
    } else {
        assert(es.subrange(0, i) =~= es);
    }
}

/// Where no entry before `i` is for `mime` and entry `i` is, `sent_of` is
/// entry `i`'s bytes.
proof fn lemma_sent_at(es: Seq<(String, usize)>, mime: Seq<char>, i: int)
    requires
        0 <= i < es.len(),
        es[i].0@ == mime,
        forall|j: int| 0 <= j < i ==> (#[trigger] es[j]).0@ != mime,
    ensures
        sent_of(es, mime) == es[i].1,
{
    assert(first_entry(es, mime, i));
    let k = choose|k: int| first_entry(es, mime, k);
    assert(k == i) by {
        if k < i {
            assert(es[k].0@ != mime);
        } else if i < k {
            assert(es[i].0@ != mime);
        }
    }
}

/// Entries that keep their keys, whose bytes change only for `mime`, and
/// that are followed only by entries for `mime`, record the same bytes for
/// every other type.
proof fn lemma_sent_frame(pre: Seq<(String, usize)>, post: Seq<(String, usize)>, mime: Seq<char>, m: Seq<char>)
    requires
        pre.len() <= post.len(),
        forall|i: int| 0 <= i < pre.len() ==> (#[trigger] post[i]).0@ == pre[i].0@,
        forall|i: int| 0 <= i < pre.len() && pre[i].0@ != mime ==> (#[trigger] post[i]).1 == pre[i].1,
        forall|i: int| pre.len() <= i < post.len() ==> (#[trigger] post[i]).0@ == mime,
        m != mime,
    ensures
        sent_of(post, m) == sent_of(pre, m),
{
    if exists|i: int| first_entry(pre, m, i) {
        let i = choose|i: int| first_entry(pre, m, i);
        assert forall|j: int| 0 <= j < i implies (#[trigger] post[j]).0@ != m by {
            assert(pre[j].0@ != m);
        }
        lemma_sent_at(pre, m, i);
        lemma_sent_at(post, m, i);
    } else if exists|i: int| first_entry(post, m, i) {
        let i = choose|i: int| first_entry(post, m, i);
        assert(i < pre.len());
        assert forall|j: int| 0 <= j < i implies (#[trigger] pre[j]).0@ != m by {
            assert(post[j].0@ != m);
        }
        assert(first_entry(pre, m, i));
    }
}

impl Statistics {
    pub closed spec fn entries(&self) -> Seq<(String, usize)> {
        self.statmap@
    }

    pub closed spec fn spec_requests(&self) -> nat {
        self.requests as nat
    }

    /// All recorded bytes fit in a `usize`.
    pub open spec fn wf(&self) -> bool {
        total_of(self.entries(), false) <= usize::MAX
    }

    /// The bytes sent for `mime`.
    pub open spec fn spec_sent(&self, mime: Seq<char>) -> nat {
        sent_of(self.entries(), mime)
    }

    /// Nothing sent yet.
    pub fn new() -> (s: Statistics)
        ensures
            s.wf(),
            s.spec_requests() == 0,
            forall|m: Seq<char>| #[trigger] s.spec_sent(m) == 0,
            total_of(s.entries(), false) == 0,
            total_of(s.entries(), true) == 0,
    {
        Statistics { statmap: Vec::new(), requests: 0 }
    }

    /// Records a response of `size` bytes of type `mime`; each call counts
    /// as one request.
    pub fn add(&mut self, mime: &str, size: usize)
        requires
            old(self).wf(),
            total_of(old(self).entries(), false) + size <= usize::MAX,
            old(self).spec_requests() < usize::MAX,
        ensures
            final(self).wf(),
            final(self).spec_requests() == old(self).spec_requests() + 1,
            final(self).spec_sent(mime@) == old(self).spec_sent(mime@) + size,
            forall|m: Seq<char>| m != mime@ ==> #[trigger] final(self).spec_sent(m) == old(self).spec_sent(m),
            total_of(final(self).entries(), false) == total_of(old(self).entries(), false) + size,
            total_of(final(self).entries(), true) == total_of(old(self).entries(), true) + (if is_image(
                mime@,
            ) {
                size as int
            } else {
                0
            }),
    {
        let ghost pre = self.statmap@;
        let ghost pre_requests = self.requests;
        let mut i: usize = 0;
        while i < self.statmap.len()
            invariant
                self.statmap@ == pre,
                self.requests == pre_requests,
                pre == old(self).entries(),
                pre_requests == old(self).spec_requests(),
                total_of(pre, false) + size <= usize::MAX,
                pre_requests < usize::MAX,
                i <= pre.len(),
                forall|j: int| 0 <= j < i ==> (#[trigger] pre[j]).0@ != mime@,
            decreases pre.len() - i,
        {
            if str_eq(self.statmap[i].0.as_str(), mime) {
                proof {
                    lemma_sent_at(pre, mime@, i as int);
                    lemma_prefix_total(pre, i as int + 1, false);
                    assert(pre.subrange(0, i + 1).drop_last() =~= pre.subrange(0, i as int));
                }
                let total = self.statmap[i].1 + size;
                self.statmap[i].1 = total;
                proof {
                    let post = self.statmap@;
                    assert(post =~= pre.update(i as int, (pre[i as int].0, total)));
                    lemma_total_update(pre, i as int, total, false);
                    lemma_total_update(pre, i as int, total, true);
                    lemma_sent_at(post, mime@, i as int);
                    assert forall|m: Seq<char>| m != mime@ implies #[trigger] sent_of(post, m) == sent_of(pre, m) by {
                        lemma_sent_frame(pre, post, mime@, m);
                    }
                }
                self.requests = self.requests + 1;
                return;
            }
            i = i + 1;
        }
        self.statmap.push((mime.to_owned(), size));
        proof {
            let post = self.statmap@;
            assert(post.drop_last() =~= pre);
            assert forall|j: int| 0 <= j < pre.len() implies (#[trigger] post[j]).0@ != mime@ by {
                assert(post[j] == pre[j]);
            }
            lemma_sent_at(post, mime@, pre.len() as int);
            assert forall|m: Seq<char>| m != mime@ implies #[trigger] sent_of(post, m) == sent_of(pre, m) by {
                lemma_sent_frame(pre, post, mime@, m);
            }
            if exists|k: int| first_entry(pre, mime@, k) {
                let k = choose|k: int| first_entry(pre, mime@, k);
                assert(pre[k].0@ != mime@);
            }
        }
        self.requests = self.requests + 1;
    }

    /// The bytes sent for all types.
    pub fn total(&self) -> (r: usize)
        requires
            self.wf(),
        ensures
            r == total_of(self.entries(), false),
    {
        let ghost es = self.statmap@;
        let mut acc: usize = 0;
        let mut i: usize = 0;
        while i < self.statmap.len()
            invariant
                self.statmap@ == es,
                total_of(es, false) <= usize::MAX,
                i <= es.len(),
                acc == total_of(es.subrange(0, i as int), false),
            decreases es.len() - i,
        {
            proof {
                assert(es.subrange(0, i + 1).drop_last() =~= es.subrange(0, i as int));
                lemma_prefix_total(es, i + 1, false);
            }
            acc = acc + self.statmap[i].1;
            i = i + 1;
        }
        proof {
            assert(es.subrange(0, es.len() as int) =~= es);
        }
        acc
    }

    /// How many requests were recorded.
    pub fn requests(&self) -> (r: usize)
        ensures
            r == self.spec_requests(),
    {
        self.requests
    }

    /// The bytes sent for `mime`; 0 for a type never sent.
    pub fn sent(&self, mime: &str) -> (r: usize)
        ensures
            r == self.spec_sent(mime@),
    {
        let ghost es = self.statmap@;
        let mut i: usize = 0;
        while i < self.statmap.len()
            invariant
                self.statmap@ == es,
                i <= es.len(),
                forall|j: int| 0 <= j < i ==> (#[trigger] es[j]).0@ != mime@,
            decreases es.len() - i,
        {
            if str_eq(self.statmap[i].0.as_str(), mime) {
                proof {
                    lemma_sent_at(es, mime@, i as int);
                }
                return self.statmap[i].1;
            }
            i = i + 1;
        }
        0
    }

    /// The bytes sent for all image types.
    pub fn image(&self) -> (r: usize)
        requires
            self.wf(),
        ensures
            r == total_of(self.entries(), true),
    {
        let ghost es = self.statmap@;
        let mut acc: usize = 0;
        let mut i: usize = 0;
        while i < self.statmap.len()
            invariant
                self.statmap@ == es,
                total_of(es, false) <= usize::MAX,
                i <= es.len(),
                acc == total_of(es.subrange(0, i as int), true),
            decreases es.len() - i,
        {
            proof {
                assert(es.subrange(0, i + 1).drop_last() =~= es.subrange(0, i as int));
                lemma_images_within_total(es.subrange(0, i + 1));
                lemma_prefix_total(es, i + 1, false);
            }
            if starts_with(self.statmap[i].0.as_str(), "image") {
                proof {
                    reveal_strlit("image");
                }
                acc = acc + self.statmap[i].1;
            } else {
                proof {
                    reveal_strlit("image");
                }
            }
            i = i + 1;
        }
        proof {
            assert(es.subrange(0, es.len() as int) =~= es);
        }
        acc
    }

    /// The bytes sent as `text/html`.
    pub fn html(&self) -> (r: usize)
        ensures
            r == self.spec_sent("text/html"@),
    {
        self.sent("text/html")
    }
}

impl Default for Statistics {
    fn default() -> (s: Statistics)
        ensures
            s.wf(),
            s.spec_requests() == 0,
            forall|m: Seq<char>| #[trigger] s.spec_sent(m) == 0,
    {
        Statistics::new()
    }
}

} // verus!
