//! Properties that hold of every input: a well-formed annotation yields its
//! trimmed text, and scanning the same files in any order finds the same
//! records.
use vstd::prelude::*;
use crate::annotation::{
    close_marker, comment_context, line_annotation, open_marker, priority_tag, split_uscore,
    todo_payload,
};
use crate::record::{
    all_records, file_records, priorities_from, sorted_by_priority, with_priority,
    SourceFileView, TodoView,
};
use crate::text::{contains, find_from, lemma_find_from, occurs_at, trim, trim_end, trim_start};

verus! {

/// Where `pat` occurs at `i` and nowhere in `[j, i)`, the search from `j`
/// finds it at `i`.
proof fn lemma_find_first(s: Seq<char>, pat: Seq<char>, j: int, i: int)
    requires
        0 <= j <= i,
        occurs_at(s, pat, i),
        forall|k: int| j <= k < i ==> !occurs_at(s, pat, k),
    ensures
        find_from(s, pat, j) == Some(i),
    decreases i - j,
{
    if j < i {
        lemma_find_first(s, pat, j + 1, i);
    }
}

/// Trimming keeps a contiguous part of the text.
proof fn lemma_trim_is_part(s: Seq<char>)
    ensures
        exists|a: int, b: int| 0 <= a <= b <= s.len() && trim(s) == s.subrange(a, b),
{
    lemma_trim_start_part(s);
    let a = choose|a: int| 0 <= a <= s.len() && trim_start(s) == s.subrange(a, s.len() as int);
    let t = trim_start(s);
    lemma_trim_end_part(t);
    let b = choose|b: int| 0 <= b <= t.len() && trim_end(t) == t.subrange(0, b);
    assert(trim(s) == s.subrange(a, a + b));
}

proof fn lemma_trim_start_part(s: Seq<char>)
    ensures
        exists|a: int| 0 <= a <= s.len() && trim_start(s) == s.subrange(a, s.len() as int),
    decreases s.len(),
{
    if s.len() > 0 && crate::text::is_ws(s[0]) {
        lemma_trim_start_part(s.drop_first());
        let a = choose|a: int|
            0 <= a <= s.drop_first().len() && trim_start(s.drop_first()) == s.drop_first().subrange(
                a,
                s.drop_first().len() as int,
            );
        assert(s.drop_first().subrange(a, s.len() - 1) =~= s.subrange(a + 1, s.len() as int));
    } else {
        assert(s.subrange(0, s.len() as int) =~= s);
    }
}

proof fn lemma_trim_end_part(s: Seq<char>)
    ensures
        exists|b: int| 0 <= b <= s.len() && trim_end(s) == s.subrange(0, b),
    decreases s.len(),
{
    if s.len() > 0 && crate::text::is_ws(s.last()) {
        lemma_trim_end_part(s.drop_last());
        let b = choose|b: int|
            0 <= b <= s.drop_last().len() && trim_end(s.drop_last()) == s.drop_last().subrange(
                0,
                b,
            );
        assert(s.drop_last().subrange(0, b) =~= s.subrange(0, b));
    } else {
        assert(s.subrange(0, s.len() as int) =~= s);
    }
}

/// A text with no `U:` in it keeps its text and gets priority 0.
proof fn lemma_no_tag_no_priority(c: Seq<char>)
    requires
        !contains(c, priority_tag()),
    ensures
        split_uscore(c) == (c, 0u8),
{
    lemma_find_from(c, priority_tag(), 0);
}

/// A line in comment context whose first `//TODO:` is followed by a text `x`
/// that holds no `:ODOT//` (nor the start of one running into the marker
/// after it), then by `:ODOT//`, yields `x` trimmed; where `x` holds no
/// `U:`, its priority is 0.
pub proof fn lemma_closed_annotation(pre: Seq<char>, x: Seq<char>, post: Seq<char>)
    requires
        comment_context(pre + open_marker() + x + close_marker() + post),
        forall|i: int|
            0 <= i < pre.len() ==> !occurs_at(
                pre + open_marker() + x + close_marker() + post,
                open_marker(),
                i,
            ),
        forall|i: int|
            pre.len() + 7 <= i < pre.len() + 7 + x.len() ==> !occurs_at(
                pre + open_marker() + x + close_marker() + post,
                close_marker(),
                i,
            ),
        !contains(x, priority_tag()),
    ensures
        todo_payload(pre + open_marker() + x + close_marker() + post) == Some(trim(x)),
        line_annotation(pre + open_marker() + x + close_marker() + post) == Some(
            (trim(x), 0u8),
        ),
{
    let line = pre + open_marker() + x + close_marker() + post;
    let from = pre.len() as int + 7;
    let e: int = from + x.len();
    assert(line.subrange(pre.len() as int, from) =~= open_marker());
    lemma_find_first(line, open_marker(), 0, pre.len() as int);
    assert(line.subrange(e, e + 7) =~= close_marker());
    lemma_find_first(line, close_marker(), from, e);
    assert(line.subrange(from, e) =~= x);
    lemma_trim_is_part(x);
    let (a, b) = choose|a: int, b: int| 0 <= a <= b <= x.len() && trim(x) == x.subrange(a, b);
    assert forall|i: int| !occurs_at(trim(x), priority_tag(), i) by {
        if occurs_at(trim(x), priority_tag(), i) {
            assert(x.subrange(a + i, a + i + 2) =~= trim(x).subrange(i, i + 2));
            assert(occurs_at(x, priority_tag(), a + i));
        }
    }
    lemma_no_tag_no_priority(trim(x));
}

proof fn lemma_with_priority_push(s: Seq<TodoView>, x: TodoView, p: u8)
    ensures
        with_priority(s.push(x), p) == if x.priority == p {
            with_priority(s, p).push(x)
        } else {
            with_priority(s, p)
        },
{
    assert(s.push(x).drop_last() =~= s);
}

proof fn lemma_priorities_push(s: Seq<TodoView>, x: TodoView, p: int)
    requires
        p <= 255,
    ensures
        priorities_from(s.push(x), p).to_multiset() == if x.priority <= p {
            priorities_from(s, p).to_multiset().insert(x)
        } else {
            priorities_from(s, p).to_multiset()
        },
    decreases p + 1,
{
    broadcast use vstd::seq_lib::group_to_multiset_ensures, vstd::seq_lib::lemma_multiset_commutative;

    if p >= 0 {
        lemma_with_priority_push(s, x, p as u8);
        lemma_priorities_push(s, x, p - 1);
        let w = with_priority(s, p as u8);
        let r = priorities_from(s, p - 1);
        assert(w.push(x).to_multiset() == w.to_multiset().insert(x));
        if x.priority == p {
            assert(priorities_from(s.push(x), p).to_multiset() =~= (w + r).to_multiset().insert(x));
        } else {
            assert(priorities_from(s.push(x), p).to_multiset() =~= if x.priority <= p {
                (w + r).to_multiset().insert(x)
            } else {
                (w + r).to_multiset()
            });
        }
    }
}

/// Ordering by priority keeps every record, as often as it comes.
pub proof fn lemma_sort_keeps_records(s: Seq<TodoView>)
    ensures
        sorted_by_priority(s).to_multiset() == s.to_multiset(),
    decreases s.len(),
{
    broadcast use vstd::seq_lib::group_to_multiset_ensures;

    if s.len() == 0 {
        lemma_priorities_empty(s, 255);
    } else {
        lemma_sort_keeps_records(s.drop_last());
        lemma_priorities_push(s.drop_last(), s.last(), 255);
        assert(s.drop_last().push(s.last()) =~= s);
    }
}

proof fn lemma_priorities_empty(s: Seq<TodoView>, p: int)
    requires
        s.len() == 0,
    ensures
        priorities_from(s, p) == Seq::<TodoView>::empty(),
    decreases p + 1,
{
    if p >= 0 {
        lemma_priorities_empty(s, p - 1);
        assert(with_priority(s, p as u8) + priorities_from(s, p - 1) =~= Seq::<TodoView>::empty());
    }
}

proof fn lemma_all_records_concat(path: Seq<char>, a: Seq<SourceFileView>, b: Seq<SourceFileView>)
    ensures
        all_records(path, a + b) == all_records(path, a) + all_records(path, b),
    decreases b.len(),
{
    if b.len() == 0 {
        assert(a + b =~= a);
        assert(all_records(path, a) + all_records(path, b) =~= all_records(path, a));
    } else {
        lemma_all_records_concat(path, a, b.drop_last());
        assert((a + b).drop_last() =~= a + b.drop_last());
        assert((a + b).last() == b.last());
        assert(all_records(path, a + b) =~= all_records(path, a) + all_records(path, b));
    }
}

proof fn lemma_all_records_remove(path: Seq<char>, s: Seq<SourceFileView>, k: int)
    requires
        0 <= k < s.len(),
    ensures
        all_records(path, s).to_multiset() == all_records(path, s.remove(k)).to_multiset().add(
            file_records(path, s[k]).to_multiset(),
        ),
{
    broadcast use vstd::seq_lib::lemma_multiset_commutative;

    let left = s.take(k);
    let right = s.skip(k + 1);
    assert(s =~= left + seq![s[k]] + right);
    assert(s.remove(k) =~= left + right);
    lemma_all_records_concat(path, left + seq![s[k]], right);
    lemma_all_records_concat(path, left, seq![s[k]]);
    lemma_all_records_concat(path, left, right);
    assert(seq![s[k]].drop_last() =~= Seq::<SourceFileView>::empty());
    assert(all_records(path, seq![s[k]].drop_last()) == Seq::<TodoView>::empty());
    assert(seq![s[k]].last() == s[k]);
    assert(all_records(path, seq![s[k]]) =~= file_records(path, s[k]));
    let l = all_records(path, left).to_multiset();
    let m = file_records(path, s[k]).to_multiset();
    let r = all_records(path, right).to_multiset();
    assert(l.add(m).add(r) =~= l.add(r).add(m));
}

/// Scanning the same files, listed in any order, finds the same records, as
/// often each: the order in which a directory is walked changes the order
/// of the records at most.
pub proof fn lemma_walk_order_irrelevant(
    path: Seq<char>,
    files1: Seq<SourceFileView>,
    files2: Seq<SourceFileView>,
)
    requires
        files1.to_multiset() == files2.to_multiset(),
    ensures
        all_records(path, files1).to_multiset() == all_records(path, files2).to_multiset(),
        sorted_by_priority(all_records(path, files1)).to_multiset() == sorted_by_priority(
            all_records(path, files2),
        ).to_multiset(),
    decreases files1.len(),
{
    broadcast use vstd::seq_lib::group_to_multiset_ensures, vstd::seq_lib::lemma_multiset_commutative;

    lemma_sort_keeps_records(all_records(path, files1));
    lemma_sort_keeps_records(all_records(path, files2));
    if files1.len() == 0 {
        assert(files2.to_multiset().len() == 0);
        assert(files2.len() == 0);
        assert(all_records(path, files2) == all_records(path, files1));
    } else {
        let f = files1.last();
        let rest1 = files1.drop_last();
        assert(rest1.push(f) =~= files1);
        assert(files1.to_multiset().contains(f));
        assert(files2.to_multiset().contains(f));
        assert(files2.contains(f));
        let k = choose|k: int| 0 <= k < files2.len() && files2[k] == f;
        let rest2 = files2.remove(k);
        assert(rest2.to_multiset() == files2.to_multiset().remove(f));
        assert(rest1.to_multiset() == files1.to_multiset().remove(f));
        lemma_walk_order_irrelevant(path, rest1, rest2);
        lemma_all_records_remove(path, files2, k);
        assert(all_records(path, files1) == all_records(path, rest1) + file_records(path, f));
    }
}

proof fn lemma_with_priority_all(s: Seq<TodoView>, p: u8)
    ensures
        forall|i: int|
            0 <= i < with_priority(s, p).len() ==> (#[trigger] with_priority(s, p)[i]).priority
                == p,
    decreases s.len(),
{
    if s.len() > 0 {
        lemma_with_priority_all(s.drop_last(), p);
        let prior = with_priority(s.drop_last(), p);
        if s.last().priority == p {
            assert forall|i: int| 0 <= i < prior.push(s.last()).len() implies (#[trigger] prior.push(
                s.last(),
            )[i]).priority == p by {
                if i < prior.len() {
                    assert(prior.push(s.last())[i] == prior[i]);
                }
            }
        }
    }
}

proof fn lemma_priorities_descending(s: Seq<TodoView>, p: int)
    requires
        p <= 255,
    ensures
        forall|i: int|
            0 <= i < priorities_from(s, p).len() ==> (#[trigger] priorities_from(s, p)[i]).priority
                <= p,
        forall|i: int, j: int|
            0 <= i < j < priorities_from(s, p).len() ==> (#[trigger] priorities_from(s, p)[i]).priority
                >= (#[trigger] priorities_from(s, p)[j]).priority,
    decreases p + 1,
{
    if p >= 0 {
        lemma_with_priority_all(s, p as u8);
        lemma_priorities_descending(s, p - 1);
        let w = with_priority(s, p as u8);
        let r = priorities_from(s, p - 1);
        assert(priorities_from(s, p) == w + r);
        assert forall|i: int| 0 <= i < (w + r).len() implies (#[trigger] (w + r)[i]).priority <= p by {
            if i >= w.len() {
                assert((w + r)[i] == r[i - w.len()]);
            }
        }
        assert forall|i: int, j: int|
            0 <= i < j < (w + r).len() implies (#[trigger] (w + r)[i]).priority >= (#[trigger] (w
            + r)[j]).priority by {
            if j < w.len() {
            } else if i < w.len() {
                assert((w + r)[j] == r[j - w.len()]);
            } else {
                assert((w + r)[i] == r[i - w.len()]);
                assert((w + r)[j] == r[j - w.len()]);
            }
        }
    }
}

/// Ordered by priority, records come with the highest priority first: no
/// record stands before one of higher priority.
pub proof fn lemma_sort_descending(s: Seq<TodoView>)
    ensures
        forall|i: int, j: int|
            0 <= i < j < sorted_by_priority(s).len() ==> (#[trigger] sorted_by_priority(s)[i]).priority
                >= (#[trigger] sorted_by_priority(s)[j]).priority,
{
    lemma_priorities_descending(s, 255);
}

} // verus!
