//! Rows keyed by an id and stamped with their creation time: lookup by id
//! and the newest-first order in which lists are shown.

use vstd::prelude::*;
use crate::models::{CardRelation, Conversation, KnowledgeCard};
use crate::text::chars_of;

verus! {

/// The order of texts as compared character by character (by code point),
/// a shorter text before its extensions: `str`'s `Ord`, which is also the
/// byte order of their UTF-8 encodings.
pub open spec fn text_lt(a: Seq<char>, b: Seq<char>) -> bool
    decreases a.len(),
{
    if b.len() == 0 {
        false
    } else if a.len() == 0 {
        true
    } else if a[0] != b[0] {
        (a[0] as u32) < (b[0] as u32)
    } else {
        text_lt(a.drop_first(), b.drop_first())
    }
}

/// A stored row: its id and its creation time.
pub trait Record {
    spec fn key(&self) -> Seq<char>;

    spec fn stamp(&self) -> Seq<char>;

    fn key_str(&self) -> (out: &str)
        ensures
            out@ == self.key(),
    ;

    fn stamp_str(&self) -> (out: &str)
        ensures
            out@ == self.stamp(),
    ;
}

impl Record for Conversation {
    open spec fn key(&self) -> Seq<char> {
        self.id@
    }

    open spec fn stamp(&self) -> Seq<char> {
        self.created_at@
    }

    fn key_str(&self) -> (out: &str) {
        self.id.as_str()
    }

    fn stamp_str(&self) -> (out: &str) {
        self.created_at.as_str()
    }
}

impl Record for KnowledgeCard {
    open spec fn key(&self) -> Seq<char> {
        self.id@
    }

    open spec fn stamp(&self) -> Seq<char> {
        self.created_at@
    }

    fn key_str(&self) -> (out: &str) {
        self.id.as_str()
    }

    fn stamp_str(&self) -> (out: &str) {
        self.created_at.as_str()
    }
}

impl Record for CardRelation {
    open spec fn key(&self) -> Seq<char> {
        self.id@
    }

    open spec fn stamp(&self) -> Seq<char> {
        self.created_at@
    }

    fn key_str(&self) -> (out: &str) {
        self.id.as_str()
    }

    fn stamp_str(&self) -> (out: &str) {
        self.created_at.as_str()
    }
}

pub open spec fn keys<T: Record>(s: Seq<T>) -> Seq<Seq<char>> {
    s.map_values(|t: T| t.key())
}

pub open spec fn stamps<T: Record>(s: Seq<T>) -> Seq<Seq<char>> {
    s.map_values(|t: T| t.stamp())
}

/// Places row `i` into `order` after every row that is not older than it.
pub open spec fn insert_index(order: Seq<int>, stamps: Seq<Seq<char>>, i: int) -> Seq<int>
    decreases order.len(),
{
    if order.len() == 0 {
        seq![i]
    } else if text_lt(stamps[order[0]], stamps[i]) {
        seq![i] + order
    } else {
        seq![order[0]] + insert_index(order.drop_first(), stamps, i)
    }
}

/// The positions of the first `n` rows, newest first (by creation time,
/// descending); rows created at the same time keep their stored order.
pub open spec fn newest_first_order(stamps: Seq<Seq<char>>, n: nat) -> Seq<int>
    decreases n,
{
    if n == 0 {
        Seq::empty()
    } else {
        insert_index(newest_first_order(stamps, (n - 1) as nat), stamps, n - 1)
    }
}

/// The rows of `s` at the positions of `order`.
pub open spec fn reorder<A>(s: Seq<A>, order: Seq<int>) -> Seq<A> {
    order.map_values(|i: int| s[i])
}

/// A position order as integers.
pub open spec fn positions(v: Seq<usize>) -> Seq<int> {
    v.map_values(|u: usize| u as int)
}

/// The position of the row with id `key` in a list whose ids are distinct.
pub open spec fn position_of(ids: Seq<Seq<char>>, key: Seq<char>) -> int {
    choose|i: int| 0 <= i < ids.len() && ids[i] == key
}

proof fn lemma_insert_at(order: Seq<int>, stamps: Seq<Seq<char>>, i: int, j: int)
    requires
        0 <= j <= order.len(),
        forall|k: int| 0 <= k < j ==> !text_lt(stamps[#[trigger] order[k]], stamps[i]),
        j == order.len() || text_lt(stamps[order[j]], stamps[i]),
    ensures
        insert_index(order, stamps, i) == order.insert(j, i),
    decreases j,
{
    if j == 0 {
        if order.len() == 0 {
            assert(order.insert(0, i) =~= seq![i]);
        } else {
            assert(order.insert(0, i) =~= seq![i] + order);
        }
    } else {
        let rest = order.drop_first();
        assert(!text_lt(stamps[order[0]], stamps[i]));
        assert forall|k: int| 0 <= k < j - 1 implies !text_lt(stamps[#[trigger] rest[k]], stamps[i]) by {
            assert(rest[k] == order[k + 1]);
        }
        if j < order.len() {
            assert(rest[j - 1] == order[j]);
        }
        lemma_insert_at(rest, stamps, i, j - 1);
        assert(seq![order[0]] + rest.insert(j - 1, i) =~= order.insert(j, i));
    }
}

proof fn lemma_insert_index_members(order: Seq<int>, stamps: Seq<Seq<char>>, i: int)
    ensures
        insert_index(order, stamps, i).len() == order.len() + 1,
        forall|k: int|
            0 <= k < insert_index(order, stamps, i).len() ==> (#[trigger] insert_index(
                order,
                stamps,
                i,
            )[k] == i || order.contains(insert_index(order, stamps, i)[k])),
        insert_index(order, stamps, i).contains(i),
        forall|x: int| order.contains(x) ==> insert_index(order, stamps, i).contains(x),
    decreases order.len(),
{
    let r = insert_index(order, stamps, i);
    if order.len() == 0 {
        assert(r[0] == i);
    } else if text_lt(stamps[order[0]], stamps[i]) {
        assert(r == seq![i] + order);
        assert(r[0] == i);
        assert forall|k: int| 0 <= k < r.len() implies (#[trigger] r[k] == i || order.contains(r[k])) by {
            if k > 0 {
                assert(r[k] == order[k - 1]);
            }
        }
        assert forall|x: int| order.contains(x) implies r.contains(x) by {
            let k = choose|k: int| 0 <= k < order.len() && order[k] == x;
            assert(r[k + 1] == order[k]);
        }
    } else {
        let rest = order.drop_first();
        lemma_insert_index_members(rest, stamps, i);
        let rr = insert_index(rest, stamps, i);
        assert(r == seq![order[0]] + rr);
        assert forall|k: int| 0 <= k < r.len() implies (#[trigger] r[k] == i || order.contains(r[k])) by {
            if k == 0 {
                assert(order[0] == r[0]);
            } else {
                assert(r[k] == rr[k - 1]);
                if rr[k - 1] != i {
                    let m = choose|m: int| 0 <= m < rest.len() && rest[m] == rr[k - 1];
                    assert(order[m + 1] == r[k]);
                }
            }
        }
        let w = choose|w: int| 0 <= w < rr.len() && rr[w] == i;
        assert(r[w + 1] == i);
        assert forall|x: int| order.contains(x) implies r.contains(x) by {
            let k = choose|k: int| 0 <= k < order.len() && order[k] == x;
            if k == 0 {
                assert(r[0] == x);
            } else {
                assert(rest[k - 1] == x);
                assert(rest.contains(x));
                assert(rr.contains(x));
                let m = choose|m: int| 0 <= m < rr.len() && rr[m] == x;
                assert(r[m + 1] == x);
            }
        }
    }
}

/// No text comes before itself.
pub proof fn lemma_text_lt_irreflexive(a: Seq<char>)
    ensures
        !text_lt(a, a),
    decreases a.len(),
{
    if a.len() > 0 {
        lemma_text_lt_irreflexive(a.drop_first());
    }
}

/// The order of texts is transitive.
pub proof fn lemma_text_lt_transitive(a: Seq<char>, b: Seq<char>, c: Seq<char>)
    requires
        text_lt(a, b),
        text_lt(b, c),
    ensures
        text_lt(a, c),
    decreases a.len(),
{
    if a.len() > 0 && a[0] == b[0] && b[0] == c[0] {
        lemma_text_lt_transitive(a.drop_first(), b.drop_first(), c.drop_first());
    }
}

/// Of two different texts, one comes before the other.
pub proof fn lemma_text_lt_total(a: Seq<char>, b: Seq<char>)
    ensures
        text_lt(a, b) || text_lt(b, a) || a == b,
    decreases a.len(),
{
    if a.len() > 0 && b.len() > 0 && a[0] == b[0] {
        lemma_text_lt_total(a.drop_first(), b.drop_first());
        if a.drop_first() == b.drop_first() {
            assert(a =~= seq![a[0]] + a.drop_first());
            assert(b =~= seq![b[0]] + b.drop_first());
        }
    } else if a.len() == 0 && b.len() == 0 {
        assert(a =~= b);
    } else if a.len() > 0 && b.len() > 0 {
        vstd::utf8::char_u32_cast(a[0], a[0] as u32);
        vstd::utf8::char_u32_cast(b[0], b[0] as u32);
    }
}

/// Each position of `order` holds a row not older than the rows after it.
pub open spec fn newest_first(order: Seq<int>, stamps: Seq<Seq<char>>) -> bool {
    forall|p: int, q: int|
        0 <= p < q < order.len() ==> !text_lt(stamps[#[trigger] order[p]], stamps[#[trigger] order[q]])
}

proof fn lemma_insert_keeps_order(order: Seq<int>, stamps: Seq<Seq<char>>, i: int)
    requires
        newest_first(order, stamps),
    ensures
        newest_first(insert_index(order, stamps, i), stamps),
    decreases order.len(),
{
    let r = insert_index(order, stamps, i);
    if order.len() == 0 {
    } else if text_lt(stamps[order[0]], stamps[i]) {
        assert(r == seq![i] + order);
        assert forall|p: int, q: int| 0 <= p < q < r.len() implies !text_lt(
            stamps[#[trigger] r[p]],
            stamps[#[trigger] r[q]],
        ) by {
            if p == 0 {
                assert(r[q] == order[q - 1]);
                if text_lt(stamps[i], stamps[order[q - 1]]) {
                    lemma_text_lt_transitive(stamps[order[0]], stamps[i], stamps[order[q - 1]]);
                    if q - 1 == 0 {
                        lemma_text_lt_irreflexive(stamps[order[0]]);
                    }
                }
            } else {
                assert(r[p] == order[p - 1] && r[q] == order[q - 1]);
            }
        }
    } else {
        let rest = order.drop_first();
        assert forall|p: int, q: int| 0 <= p < q < rest.len() implies !text_lt(
            stamps[#[trigger] rest[p]],
            stamps[#[trigger] rest[q]],
        ) by {
            assert(rest[p] == order[p + 1] && rest[q] == order[q + 1]);
        }
        lemma_insert_keeps_order(rest, stamps, i);
        lemma_insert_index_members(rest, stamps, i);
        let rr = insert_index(rest, stamps, i);
        assert(r == seq![order[0]] + rr);
        assert forall|p: int, q: int| 0 <= p < q < r.len() implies !text_lt(
            stamps[#[trigger] r[p]],
            stamps[#[trigger] r[q]],
        ) by {
            if p == 0 {
                assert(r[q] == rr[q - 1]);
                if rr[q - 1] != i {
                    let m = choose|m: int| 0 <= m < rest.len() && rest[m] == rr[q - 1];
                    assert(order[m + 1] == r[q]);
                }
            } else {
                assert(r[p] == rr[p - 1] && r[q] == rr[q - 1]);
            }
        }
    }
}

/// The newest-first order puts each row before every older row.
pub proof fn lemma_newest_first_sorted(stamps: Seq<Seq<char>>, n: nat)
    ensures
        newest_first(newest_first_order(stamps, n), stamps),
    decreases n,
{
    if n > 0 {
        lemma_newest_first_sorted(stamps, (n - 1) as nat);
        lemma_insert_keeps_order(newest_first_order(stamps, (n - 1) as nat), stamps, n - 1);
    }
}

/// The newest-first order is an arrangement of the positions `0..n`.
pub proof fn lemma_order_positions(stamps: Seq<Seq<char>>, n: nat)
    ensures
        newest_first_order(stamps, n).len() == n,
        forall|k: int|
            0 <= k < n ==> 0 <= #[trigger] newest_first_order(stamps, n)[k] < n,
        forall|x: int| 0 <= x < n ==> newest_first_order(stamps, n).contains(x),
    decreases n,
{
    if n > 0 {
        let prev = newest_first_order(stamps, (n - 1) as nat);
        lemma_order_positions(stamps, (n - 1) as nat);
        lemma_insert_index_members(prev, stamps, n - 1);
        let cur = newest_first_order(stamps, n);
        assert forall|k: int| 0 <= k < n implies 0 <= #[trigger] cur[k] < n by {
            if cur[k] != n - 1 {
                let m = choose|m: int| 0 <= m < prev.len() && prev[m] == cur[k];
            }
        }
        assert forall|x: int| 0 <= x < n implies cur.contains(x) by {
            if x < n - 1 {
                assert(prev.contains(x));
            }
        }
    }
}

/// Whether text `a` comes before text `b`.
pub fn text_less(a: &str, b: &str) -> (out: bool)
    ensures
        out == text_lt(a@, b@),
{
    let x = chars_of(a);
    let y = chars_of(b);
    let mut i: usize = 0;
    assert(x@.skip(0) == x@);
    assert(y@.skip(0) == y@);
    while i < x.len() && i < y.len() && x[i] == y[i]
        invariant
            i <= x.len(),
            i <= y.len(),
            text_lt(x@, y@) == text_lt(x@.skip(i as int), y@.skip(i as int)),
        decreases x.len() - i,
    {
        proof {
            let xs = x@.skip(i as int);
            let ys = y@.skip(i as int);
            assert(xs.drop_first() =~= x@.skip(i + 1));
            assert(ys.drop_first() =~= y@.skip(i + 1));
        }
        i += 1;
    }
    proof {
        let xs = x@.skip(i as int);
        let ys = y@.skip(i as int);
        if i < x.len() && i < y.len() {
            assert(xs[0] == x@[i as int]);
            assert(ys[0] == y@[i as int]);
        }
    }
    if i == y.len() {
        false
    } else if i == x.len() {
        true
    } else {
        (x[i] as u32) < (y[i] as u32)
    }
}

/// The position of the first row with the given id.
pub fn find_index<T: Record>(items: &Vec<T>, key: &str) -> (out: Option<usize>)
    ensures
        match out {
            Some(i) => i < items.len() && items@[i as int].key() == key@ && forall|k: int|
                0 <= k < i ==> items@[k].key() != key@,
            None => forall|k: int| 0 <= k < items.len() ==> items@[k].key() != key@,
        },
{
    let mut i: usize = 0;
    while i < items.len()
        invariant
            i <= items.len(),
            forall|k: int| 0 <= k < i ==> items@[k].key() != key@,
        decreases items.len() - i,
    {
        if crate::text::same_text(items[i].key_str(), key) {
            return Some(i);
        }
        i += 1;
    }
    None
}

/// The positions of the rows, newest first.
pub fn order_newest_first<T: Record>(items: &Vec<T>) -> (out: Vec<usize>)
    ensures
        positions(out@) == newest_first_order(stamps(items@), items.len() as nat),
        out.len() == items.len(),
        forall|k: int| 0 <= k < out.len() ==> #[trigger] out@[k] < items.len(),
{
    let ghost st = stamps(items@);
    let mut order: Vec<usize> = Vec::new();
    let mut i: usize = 0;
    while i < items.len()
        invariant
            i <= items.len(),
            st == stamps(items@),
            positions(order@) == newest_first_order(st, i as nat),
            forall|k: int| 0 <= k < order.len() ==> #[trigger] order@[k] < i,
        decreases items.len() - i,
    {
        let ghost ord = positions(order@);
        let mut j: usize = 0;
        while j < order.len() && !text_less(items[order[j]].stamp_str(), items[i].stamp_str())
            invariant
                j <= order.len(),
                i < items.len(),
                st == stamps(items@),
                ord == positions(order@),
                forall|k: int| 0 <= k < order.len() ==> #[trigger] order@[k] < i,
                forall|k: int| 0 <= k < j ==> !text_lt(st[#[trigger] ord[k]], st[i as int]),
            decreases order.len() - j,
        {
            assert(st[ord[j as int]] == items@[order@[j as int] as int].stamp());
            j += 1;
        }
        proof {
            if j < order.len() {
                assert(st[ord[j as int]] == items@[order@[j as int] as int].stamp());
            }
            lemma_insert_at(ord, st, i as int, j as int);
        }
        order.insert(j, i);
        assert(positions(order@) =~= ord.insert(j as int, i as int));
        i += 1;
    }
    proof {
        lemma_order_positions(st, items.len() as nat);
    }
    order
}

} // verus!
