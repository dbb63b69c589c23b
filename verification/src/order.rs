//! The order in which records are reviewed: descending by sender domain,
//! then by sender name, then by date, records of one key in the order in
//! which they came.

use vstd::prelude::*;
use crate::email::{views, Email, EmailView};
use crate::text::{lemma_text_order, str_lt, text_lt};

verus! {

/// Whether the key of `a` (sender domain, then sender name, then date) is
/// smaller than the key of `b`.
pub open spec fn key_lt(a: EmailView, b: EmailView) -> bool {
    ||| text_lt(a.from_domain, b.from_domain)
    ||| a.from_domain == b.from_domain && text_lt(a.from_name, b.from_name)
    ||| a.from_domain == b.from_domain && a.from_name == b.from_name && a.date < b.date
}

/// Whether two records have the same key.
pub open spec fn same_key(a: EmailView, b: EmailView) -> bool {
    a.from_domain == b.from_domain && a.from_name == b.from_name && a.date == b.date
}

/// The predicate that picks the records with the key of `e`.
pub open spec fn with_key_of(e: EmailView) -> spec_fn(EmailView) -> bool {
    |x: EmailView| same_key(x, e)
}

/// No record stands before one with a greater key.
pub open spec fn descending(records: Seq<EmailView>) -> bool {
    forall|i: int, j: int| 0 <= i < j < records.len() ==> !key_lt(records[i], records[j])
}

/// `sorted` with `e` put behind every record whose key is not smaller
/// than that of `e`, and before the records with a smaller key that end
/// `sorted`.
pub open spec fn insert_desc(sorted: Seq<EmailView>, e: EmailView) -> Seq<EmailView>
    decreases sorted.len(),
{
    if sorted.len() > 0 && key_lt(sorted.last(), e) {
        insert_desc(sorted.drop_last(), e).push(sorted.last())
    } else {
        sorted.push(e)
    }
}

/// The review order of `records`: each record in turn is put into the
/// order of those before it, behind the records whose key is not smaller.
pub open spec fn review_order(records: Seq<EmailView>) -> Seq<EmailView>
    decreases records.len(),
{
    if records.len() == 0 {
        records
    } else {
        insert_desc(review_order(records.drop_last()), records.last())
    }
}

/// Where `e` goes into `sorted`: the start of the longest run of records
/// with a smaller key that ends `sorted`.
pub open spec fn insert_point(sorted: Seq<EmailView>, e: EmailView) -> int
    decreases sorted.len(),
{
    if sorted.len() > 0 && key_lt(sorted.last(), e) {
        insert_point(sorted.drop_last(), e)
    } else {
        sorted.len() as int
    }
}

/// Two sequences run together from their ends: the last record of the
/// result is the last of `a` where its key is smaller than that of the
/// last of `b`, and the last of `b` otherwise. Of records with the same
/// key those of `a` come first.
pub open spec fn merge_desc(a: Seq<EmailView>, b: Seq<EmailView>) -> Seq<EmailView>
    decreases a.len() + b.len(),
{
    if a.len() == 0 {
        b
    } else if b.len() == 0 {
        a
    } else if key_lt(a.last(), b.last()) {
        merge_desc(a.drop_last(), b).push(a.last())
    } else {
        merge_desc(a, b.drop_last()).push(b.last())
    }
}

/// The order of keys is a strict order in which any two keys compare: a
/// key is not smaller than itself or than an equal key, of two records
/// with different keys exactly one has the smaller key, and a key smaller
/// than another is smaller than a third or the third is smaller than the
/// other.
pub proof fn lemma_key_order(a: EmailView, b: EmailView, c: EmailView)
    ensures
        same_key(a, b) ==> !key_lt(a, b),
        key_lt(a, b) || same_key(a, b) || key_lt(b, a),
        !(key_lt(a, b) && key_lt(b, a)),
        key_lt(a, b) && key_lt(b, c) ==> key_lt(a, c),
        key_lt(a, c) ==> key_lt(a, b) || key_lt(b, c),
{
    lemma_text_order(a.from_domain, b.from_domain, c.from_domain);
    lemma_text_order(b.from_domain, c.from_domain, a.from_domain);
    lemma_text_order(c.from_domain, a.from_domain, b.from_domain);
    lemma_text_order(a.from_domain, c.from_domain, b.from_domain);
    lemma_text_order(b.from_domain, a.from_domain, c.from_domain);
    lemma_text_order(c.from_domain, b.from_domain, a.from_domain);
    lemma_text_order(a.from_name, b.from_name, c.from_name);
    lemma_text_order(b.from_name, c.from_name, a.from_name);
    lemma_text_order(c.from_name, a.from_name, b.from_name);
    lemma_text_order(a.from_name, c.from_name, b.from_name);
    lemma_text_order(b.from_name, a.from_name, c.from_name);
    lemma_text_order(c.from_name, b.from_name, a.from_name);
}

/// Putting `e` into `sorted` is inserting it at an index `j` where every
/// record from `j` on has a smaller key and the record before `j`, if
/// there is one, has not.
pub proof fn lemma_insert_desc_at(sorted: Seq<EmailView>, e: EmailView, j: int)
    requires
        0 <= j <= sorted.len(),
        forall|k: int| j <= k < sorted.len() ==> key_lt(#[trigger] sorted[k], e),
        j > 0 ==> !key_lt(sorted[j - 1], e),
    ensures
        insert_desc(sorted, e) == sorted.insert(j, e),
    decreases sorted.len(),
{
    if j == sorted.len() {
        assert(sorted.push(e) =~= sorted.insert(j, e));
    } else {
        assert(key_lt(sorted[sorted.len() - 1], e));
        lemma_insert_desc_at(sorted.drop_last(), e, j);
        assert(sorted.drop_last().insert(j, e).push(sorted.last()) =~= sorted.insert(j, e));
    }
}

/// The insertion point lies in `sorted` or at its end, has only records
/// with a smaller key from it on, none directly before it, and is where
/// `e` is put.
pub proof fn lemma_insert_point(sorted: Seq<EmailView>, e: EmailView)
    ensures
        0 <= insert_point(sorted, e) <= sorted.len(),
        forall|k: int|
            insert_point(sorted, e) <= k < sorted.len() ==> key_lt(#[trigger] sorted[k], e),
        insert_point(sorted, e) > 0 ==> !key_lt(sorted[insert_point(sorted, e) - 1], e),
        insert_desc(sorted, e) == sorted.insert(insert_point(sorted, e), e),
    decreases sorted.len(),
{
    if sorted.len() > 0 && key_lt(sorted.last(), e) {
        lemma_insert_point(sorted.drop_last(), e);
        let j = insert_point(sorted, e);
        assert forall|k: int| j <= k < sorted.len() implies key_lt(#[trigger] sorted[k], e) by {
            if k < sorted.len() - 1 {
                assert(sorted.drop_last()[k] == sorted[k]);
            }
        }
        if j > 0 {
            assert(sorted.drop_last()[j - 1] == sorted[j - 1]);
        }
    }
    lemma_insert_desc_at(sorted, e, insert_point(sorted, e));
}

/// Putting a record into a descending sequence leaves it descending.
pub proof fn lemma_insert_desc_descending(sorted: Seq<EmailView>, e: EmailView)
    requires
        descending(sorted),
    ensures
        descending(insert_desc(sorted, e)),
{
    lemma_insert_point(sorted, e);
    let j = insert_point(sorted, e);
    let out = sorted.insert(j, e);
    assert forall|a: int, b: int| 0 <= a < b < out.len() implies !key_lt(out[a], out[b]) by {
        if a == j {
            assert(out[b] == sorted[b - 1]);
            lemma_key_order(sorted[b - 1], e, e);
        } else if b == j {
            assert(out[a] == sorted[a]);
            lemma_key_order(sorted[a], sorted[j - 1], e);
            if a < j - 1 {
                assert(!key_lt(sorted[a], sorted[j - 1]));
            }
        } else {
            let x = if a < j {
                a
            } else {
                a - 1
            };
            let y = if b < j {
                b
            } else {
                b - 1
            };
            assert(out[a] == sorted[x]);
            assert(out[b] == sorted[y]);
        }
    }
}

/// Putting a record into a sequence adds that record and nothing else.
pub proof fn lemma_insert_desc_multiset(sorted: Seq<EmailView>, e: EmailView)
    ensures
        insert_desc(sorted, e).to_multiset() == sorted.to_multiset().insert(e),
{
    broadcast use vstd::seq_lib::group_to_multiset_ensures;

    lemma_insert_point(sorted, e);
}

/// Among the records of one key, a record put into a sequence comes
/// last; the records of every other key are left as they stood.
pub proof fn lemma_insert_desc_filter(sorted: Seq<EmailView>, e: EmailView, key: EmailView)
    ensures
        insert_desc(sorted, e).filter(with_key_of(key)) == if same_key(e, key) {
            sorted.filter(with_key_of(key)).push(e)
        } else {
            sorted.filter(with_key_of(key))
        },
    decreases sorted.len(),
{
    reveal(Seq::filter);
    let p = with_key_of(key);
    if sorted.len() > 0 && key_lt(sorted.last(), e) {
        let front = sorted.drop_last();
        let last = sorted.last();
        lemma_insert_desc_filter(front, e, key);
        let put = insert_desc(front, e);
        assert(put.push(last).drop_last() =~= put);
        assert(put.push(last).last() == last);
        if same_key(e, key) {
            lemma_key_order(last, e, e);
            assert(!p(last));
        }
    } else {
        assert(sorted.push(e).drop_last() =~= sorted);
        assert(sorted.push(e).last() == e);
    }
}

/// The review order is descending by key.
pub proof fn lemma_review_order_descending(records: Seq<EmailView>)
    ensures
        descending(review_order(records)),
    decreases records.len(),
{
    if records.len() > 0 {
        lemma_review_order_descending(records.drop_last());
        lemma_insert_desc_descending(review_order(records.drop_last()), records.last());
    }
}

/// The review order holds the records it was made of, each as often as
/// it was given, and no other.
pub proof fn lemma_review_order_permutes(records: Seq<EmailView>)
    ensures
        review_order(records).to_multiset() == records.to_multiset(),
        review_order(records).len() == records.len(),
    decreases records.len(),
{
    broadcast use vstd::seq_lib::group_to_multiset_ensures;

    if records.len() > 0 {
        let front = records.drop_last();
        lemma_review_order_permutes(front);
        lemma_insert_desc_multiset(review_order(front), records.last());
        assert(front.push(records.last()) =~= records);
        lemma_insert_point(review_order(front), records.last());
    } else {
        assert(review_order(records) =~= records);
    }
}

/// The review order is stable: the records of one key stand in it in
/// the order in which they stood in the input.
pub proof fn lemma_review_order_stable(records: Seq<EmailView>, key: EmailView)
    ensures
        review_order(records).filter(with_key_of(key)) == records.filter(with_key_of(key)),
    decreases records.len(),
{
    reveal(Seq::filter);
    if records.len() > 0 {
        let front = records.drop_last();
        lemma_review_order_stable(front, key);
        lemma_insert_desc_filter(review_order(front), records.last(), key);
    }
}

/// In review order the records of one sender stand next to each other,
/// and so do the records of one domain: a record between two records of
/// the same sender is of that sender, and a record between two records
/// of the same domain is of that domain.
pub proof fn lemma_review_order_groups(records: Seq<EmailView>, i: int, j: int, k: int)
    requires
        0 <= i <= j <= k < records.len(),
    ensures
        review_order(records).len() == records.len(),
        review_order(records)[i].same_domain(review_order(records)[k]) ==> review_order(
            records,
        )[j].same_domain(review_order(records)[i]),
        review_order(records)[i].same_sender(review_order(records)[k]) ==> review_order(
            records,
        )[j].same_sender(review_order(records)[i]),
{
    lemma_review_order_permutes(records);
    lemma_review_order_descending(records);
    let out = review_order(records);
    if i < j {
        assert(!key_lt(out[i], out[j]));
    }
    if j < k {
        assert(!key_lt(out[j], out[k]));
    }
    lemma_text_order(out[i].from_domain, out[j].from_domain, out[k].from_domain);
    lemma_text_order(out[j].from_domain, out[k].from_domain, out[i].from_domain);
    lemma_text_order(out[i].from_name, out[j].from_name, out[k].from_name);
    lemma_text_order(out[j].from_name, out[k].from_name, out[i].from_name);
}

/// Putting a record into the merge of two sequences is merging the
/// first with the second into which the record was put.
pub proof fn lemma_merge_insert(a: Seq<EmailView>, b: Seq<EmailView>, x: EmailView)
    ensures
        insert_desc(merge_desc(a, b), x) == merge_desc(a, insert_desc(b, x)),
    decreases a.len() + b.len(),
{
    let bx = insert_desc(b, x);
    if b.len() == 0 {
        assert(bx.last() == x);
        assert(bx.drop_last() =~= b);
        if a.len() > 0 {
            if key_lt(a.last(), x) {
                lemma_merge_insert(a.drop_last(), b, x);
                assert(merge_desc(a.drop_last(), b) =~= a.drop_last());
            }
        }
    } else if a.len() > 0 {
        let al = a.last();
        let bl = b.last();
        lemma_key_order(al, bl, x);
        if key_lt(bl, x) {
            let bx0 = insert_desc(b.drop_last(), x);
            assert(bx.last() == bl);
            assert(bx.drop_last() =~= bx0);
            if key_lt(al, bl) {
                lemma_merge_insert(a.drop_last(), b, x);
                let m = merge_desc(a.drop_last(), b);
                assert(m.push(al).last() == al);
                assert(m.push(al).drop_last() =~= m);
            } else {
                lemma_merge_insert(a, b.drop_last(), x);
                let m = merge_desc(a, b.drop_last());
                assert(m.push(bl).last() == bl);
                assert(m.push(bl).drop_last() =~= m);
            }
        } else {
            assert(bx.last() == x);
            assert(bx.drop_last() =~= b);
            if key_lt(al, x) {
                lemma_merge_insert(a.drop_last(), b, x);
                let m = merge_desc(a.drop_last(), b);
                assert(m.push(al).last() == al);
                assert(m.push(al).drop_last() =~= m);
            } else {
                let m = merge_desc(a, b);
                assert(m.last() == al || m.last() == bl);
            }
        }
    }
}

/// The review order of two sequences put end to end is the merge of
/// their review orders.
pub proof fn lemma_review_order_concat(a: Seq<EmailView>, b: Seq<EmailView>)
    ensures
        review_order(a + b) == merge_desc(review_order(a), review_order(b)),
    decreases b.len(),
{
    if b.len() == 0 {
        assert(a + b =~= a);
        assert(merge_desc(review_order(a), review_order(b)) =~= review_order(a));
    } else {
        let front = b.drop_last();
        assert((a + b).drop_last() =~= a + front);
        assert((a + b).last() == b.last());
        lemma_review_order_concat(a, front);
        lemma_merge_insert(review_order(a), review_order(front), b.last());
    }
}

/// Whether the key of `a` is smaller than the key of `b`.
pub fn key_precedes(a: &Email, b: &Email) -> (r: bool)
    ensures
        r == key_lt(a@, b@),
{
    if str_lt(a.from_domain.as_str(), b.from_domain.as_str()) {
        true
    } else if a.from_domain == b.from_domain {
        if str_lt(a.from_name.as_str(), b.from_name.as_str()) {
            true
        } else if a.from_name == b.from_name {
            a.date < b.date
        } else {
            false
        }
    } else {
        false
    }
}

/// Merges two sequences of records from their ends.
fn merge(a: Vec<Email>, b: Vec<Email>) -> (out: Vec<Email>)
    ensures
        views(out@) == merge_desc(views(a@), views(b@)),
{
    let ghost target = merge_desc(views(a@), views(b@));
    let mut a = a;
    let mut b = b;
    // The end of the result, its last record first.
    let mut tail: Vec<Email> = Vec::new();
    proof {
        assert(views(tail@).reverse() =~= Seq::<EmailView>::empty());
        assert(target + views(tail@).reverse() =~= target);
    }
    while a.len() > 0 && b.len() > 0
        invariant
            target == merge_desc(views(a@), views(b@)) + views(tail@).reverse(),
        decreases a.len() + b.len(),
    {
        let ghost va = views(a@);
        let ghost vb = views(b@);
        let ghost vt = views(tail@);
        let from_a: bool = key_precedes(&a[a.len() - 1], &b[b.len() - 1]);
        let moved: Option<Email> = if from_a {
            a.pop()
        } else {
            b.pop()
        };
        match moved {
            Some(e) => {
                tail.push(e);
                proof {
                    assert(views(tail@).reverse() =~= seq![e@] + vt.reverse());
                    if from_a {
                        assert(views(a@) =~= va.drop_last());
                        assert(e@ == va.last());
                    } else {
                        assert(views(b@) =~= vb.drop_last());
                        assert(e@ == vb.last());
                    }
                    let rest = merge_desc(views(a@), views(b@));
                    assert(rest.push(e@) + vt.reverse() =~= rest + (seq![e@] + vt.reverse()));
                }
            },
            None => {},
        }
    }
    let mut out: Vec<Email> = if a.len() > 0 {
        a
    } else {
        b
    };
    while tail.len() > 0
        invariant
            target == views(out@) + views(tail@).reverse(),
        decreases tail.len(),
    {
        let ghost vo = views(out@);
        let ghost vt = views(tail@);
        match tail.pop() {
            Some(e) => {
                out.push(e);
                proof {
                    assert(views(tail@) =~= vt.drop_last());
                    assert(e@ == vt.last());
                    assert(views(out@) =~= vo.push(e@));
                    assert(vt.reverse() =~= seq![e@] + vt.drop_last().reverse());
                    assert(vo.push(e@) + vt.drop_last().reverse() =~= vo + (seq![e@]
                        + vt.drop_last().reverse()));
                }
            },
            None => {},
        }
    }
    proof {
        assert(views(tail@).reverse() =~= Seq::<EmailView>::empty());
        assert(views(out@) + views(tail@).reverse() =~= views(out@));
    }
    out
}

/// The records in review order.
fn sorted(records: Vec<Email>) -> (out: Vec<Email>)
    ensures
        views(out@) == review_order(views(records@)),
    decreases records.len(),
{
    let n: usize = records.len();
    if n <= 1 {
        proof {
            let v = views(records@);
            if n == 1 {
                assert(review_order(v.drop_last()) =~= Seq::<EmailView>::empty());
                assert(insert_desc(Seq::<EmailView>::empty(), v.last()) =~= v);
            }
        }
        return records;
    }
    let mut left: Vec<Email> = records;
    let right: Vec<Email> = left.split_off(n / 2);
    proof {
        assert(views(records@) =~= views(left@) + views(right@));
        lemma_review_order_concat(views(left@), views(right@));
    }
    let left_sorted: Vec<Email> = sorted(left);
    let right_sorted: Vec<Email> = sorted(right);
    merge(left_sorted, right_sorted)
}

/// Puts the records into review order: descending by sender domain, then
/// by sender name, then by date; records with the same key keep the
/// order in which they were given.
pub fn sort_for_review(emails: &mut Vec<Email>)
    ensures
        views(final(emails)@) == review_order(views(old(emails)@)),
{
    let mut taken: Vec<Email> = Vec::new();
    core::mem::swap(emails, &mut taken);
    let mut done: Vec<Email> = sorted(taken);
    core::mem::swap(emails, &mut done);
}

} // verus!
